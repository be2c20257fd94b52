//! The rule store's index: the entries it knows, their slugs, and the
//! lookups, listings and updates made on them.
//!
//! Entries are persisted elsewhere; this module holds what the store reads
//! and decides: which slug names which entry, whether a slug may be used,
//! which entry a user's reference means, and in which order rules are listed.
use vstd::prelude::*;

use crate::error::{RuleError, RuleErrorView};
use crate::filter::RuleFilter;
use crate::manifest::{
    fields_get, fields_map, json_entry_views, lemma_slash_is_no_uuid, map_int, map_str, parse_uuid,
    uuid_value, uuid_text, uuid_to_string, JsonValue, JsonView,
    ManifestView, RuleId, RuleManifest,
};
use crate::paths::{forward_slashes, forward_slashes_exec};
use crate::text::{
    append_chars, append_str, chars_less, chars_lt, lemma_chars_lt_irreflexive,
    lemma_chars_lt_total, lemma_chars_lt_transitive, chars_of, chars_start_with, starts_with,
    str_eq, string_from_chars,
};

verus! {

// ---------------------------------------------------------------------------
// Slugs

/// A slug character: lower-case ASCII letter, digit, `/`, `-`, `_` or `.`.
pub open spec fn is_slug_char(c: char) -> bool {
    ('a' <= c && c <= 'z') || ('0' <= c && c <= '9') || c == '/' || c == '-' || c == '_' || c
        == '.'
}

/// A slug is non-empty and made of slug characters only.
pub open spec fn slug_check(slug: Seq<char>) -> Result<(), RuleErrorView> {
    if slug.len() == 0 {
        Err(RuleErrorView::InvalidSlug("slug cannot be empty"@))
    } else if forall|i: int| 0 <= i < slug.len() ==> is_slug_char(#[trigger] slug[i]) {
        Ok(())
    } else {
        Err(RuleErrorView::InvalidSlug(slug))
    }
}

pub open spec fn unit_result_view(r: Result<(), RuleError>) -> Result<(), RuleErrorView> {
    match r {
        Ok(()) => Ok(()),
        Err(e) => Err(e@),
    }
}

pub fn validate_slug(slug: &str) -> (r: Result<(), RuleError>)
    ensures
        unit_result_view(r) == slug_check(slug@),
{
    let v = chars_of(slug);
    if v.len() == 0 {
        return Err(RuleError::InvalidSlug("slug cannot be empty".to_owned()));
    }
    let mut i: usize = 0;
    while i < v.len()
        invariant
            0 <= i <= v@.len(),
            v@ == slug@,
            forall|j: int| 0 <= j < i ==> is_slug_char(#[trigger] v@[j]),
        decreases v@.len() - i,
    {
        let c = v[i];
        if !(('a' <= c && c <= 'z') || ('0' <= c && c <= '9') || c == '/' || c == '-' || c == '_'
            || c == '.') {
            return Err(RuleError::InvalidSlug(slug.to_owned()));
        }
        i += 1;
    }
    Ok(())
}

/// A character kept in a slug fragment (ASCII letters lowered), others `-`.
pub open spec fn fragment_char(c: char) -> char {
    if 'A' <= c && c <= 'Z' {
        ((c as u32) + 32) as char
    } else if ('a' <= c && c <= 'z') || ('0' <= c && c <= '9') || c == '/' || c == '-' || c
        == '_' || c == '.' {
        c
    } else {
        '-'
    }
}

pub open spec fn sanitized(value: Seq<char>) -> Seq<char> {
    Seq::new(value.len(), |i: int| fragment_char(value[i]))
}

pub fn sanitize_slug_fragment(value: &str) -> (r: String)
    ensures
        r@ == sanitized(value@),
{
    let v = chars_of(value);
    let mut out: Vec<char> = Vec::new();
    let mut i: usize = 0;
    while i < v.len()
        invariant
            0 <= i <= v@.len(),
            out@ == sanitized(v@.take(i as int)),
        decreases v@.len() - i,
    {
        let c = v[i];
        let d = if 'A' <= c && c <= 'Z' {
            crate::text::char_ascii_lower(c)
        } else if ('a' <= c && c <= 'z') || ('0' <= c && c <= '9') || c == '/' || c == '-' || c
            == '_' || c == '.' {
            c
        } else {
            '-'
        };
        out.push(d);
        i += 1;
        assert(out@ =~= sanitized(v@.take(i as int)));
    }
    assert(v@.take(v@.len() as int) =~= v@);
    string_from_chars(out)
}

/// The slug under which the output of a target of a configuration is
/// recorded.
pub open spec fn generated_slug(config_path: Seq<char>, target_name: Seq<char>) -> Seq<char> {
    "generated-targets/"@ + sanitized(config_path) + "/"@ + sanitized(target_name)
}

pub fn generated_target_slug(config_path: &str, target_name: &str) -> (r: String)
    ensures
        r@ == generated_slug(config_path@, target_name@),
{
    let mut out = chars_of("generated-targets/");
    append_chars(&mut out, &chars_of(sanitize_slug_fragment(config_path).as_str()));
    append_str(&mut out, "/");
    append_chars(&mut out, &chars_of(sanitize_slug_fragment(target_name).as_str()));
    string_from_chars(out)
}

// ---------------------------------------------------------------------------
// The slug index

/// Slugs and the entries they name; a later pair replaces an earlier one
/// for the same slug.
pub struct SlugIndex {
    pub pairs: Vec<(String, RuleId)>,
}

pub open spec fn pairs_map(ps: Seq<(String, RuleId)>) -> Map<Seq<char>, RuleId>
    decreases ps.len(),
{
    if ps.len() == 0 {
        Map::empty()
    } else {
        pairs_map(ps.drop_last()).insert(ps.last().0@, ps.last().1)
    }
}

impl View for SlugIndex {
    type V = Map<Seq<char>, RuleId>;

    open spec fn view(&self) -> Map<Seq<char>, RuleId> {
        pairs_map(self.pairs@)
    }
}

pub open spec fn map_get(m: Map<Seq<char>, RuleId>, k: Seq<char>) -> Option<RuleId> {
    if m.contains_key(k) {
        Some(m[k])
    } else {
        None
    }
}

impl SlugIndex {
    pub fn new() -> (r: SlugIndex)
        ensures
            r@ == Map::<Seq<char>, RuleId>::empty(),
    {
        SlugIndex { pairs: Vec::new() }
    }

    /// The entry a slug names.
    pub fn get(&self, slug: &str) -> (r: Option<RuleId>)
        ensures
            r == map_get(self@, slug@),
    {
        let ghost ps = self.pairs@;
        let mut found: Option<RuleId> = None;
        let mut i: usize = 0;
        while i < self.pairs.len()
            invariant
                0 <= i <= ps.len(),
                ps == self.pairs@,
                found == map_get(pairs_map(ps.take(i as int)), slug@),
            decreases ps.len() - i,
        {
            assert(ps.take(i + 1).drop_last() =~= ps.take(i as int));
            assert(ps.take(i + 1).last() == ps[i as int]);
            if str_eq(self.pairs[i].0.as_str(), slug) {
                found = Some(self.pairs[i].1);
            }
            i += 1;
        }
        assert(ps.take(ps.len() as int) =~= ps);
        found
    }

    /// Makes `slug` name `id`.
    pub fn insert(&mut self, slug: String, id: RuleId)
        ensures
            final(self)@ == old(self)@.insert(slug@, id),
    {
        let ghost before = self.pairs@;
        self.pairs.push((slug, id));
        assert(self.pairs@.drop_last() =~= before);
    }

    /// Forgets `slug`.
    pub fn remove(&mut self, slug: &str)
        ensures
            final(self)@ == old(self)@.remove(slug@),
    {
        let ghost ps = self.pairs@;
        let mut kept: Vec<(String, RuleId)> = Vec::new();
        let mut i: usize = 0;
        while i < self.pairs.len()
            invariant
                0 <= i <= ps.len(),
                ps == self.pairs@,
                pairs_map(kept@) == pairs_map(ps.take(i as int)).remove(slug@),
            decreases ps.len() - i,
        {
            assert(ps.take(i + 1).drop_last() =~= ps.take(i as int));
            assert(ps.take(i + 1).last() == ps[i as int]);
            let ghost prev = pairs_map(ps.take(i as int));
            if !str_eq(self.pairs[i].0.as_str(), slug) {
                let ghost k0 = pairs_map(kept@);
                let ghost kb = kept@;
                kept.push((self.pairs[i].0.clone(), self.pairs[i].1));
                assert(kept@.drop_last() =~= kb);
                assert(kept@.last().0@ == ps[i as int].0@);
                assert(pairs_map(kept@) == k0.insert(ps[i as int].0@, ps[i as int].1));
                assert(pairs_map(kept@) =~= prev.insert(ps[i as int].0@, ps[i as int].1).remove(
                    slug@,
                ));
            } else {
                assert(prev.insert(ps[i as int].0@, ps[i as int].1).remove(slug@) =~= prev.remove(
                    slug@,
                ));
            }
            i += 1;
        }
        assert(ps.take(ps.len() as int) =~= ps);
        self.pairs = kept;
    }
}

// ---------------------------------------------------------------------------
// Entries and references to them

/// The type of the store's rule entries.
pub open spec fn rule_entry_type() -> Seq<char> {
    "rule-entry"@
}

/// The type of the records of generated target outputs.
pub open spec fn generated_target_type() -> Seq<char> {
    "generated-target"@
}

/// One indexed entity: its id, its type, and its manifest.
pub struct IndexedEntry {
    pub id: RuleId,
    pub type_id: String,
    pub manifest: RuleManifest,
}

/// The store's index: its entries, in index order, and the slug index.
pub struct RuleIndex {
    pub entries: Vec<IndexedEntry>,
    pub slugs: SlugIndex,
}

/// Position of the entry with the given id.
pub open spec fn find_entry(entries: Seq<IndexedEntry>, id: RuleId) -> Option<int>
    decreases entries.len(),
{
    if entries.len() == 0 {
        None
    } else {
        match find_entry(entries.drop_last(), id) {
            Some(i) => Some(i),
            None => if entries.last().id == id {
                Some(entries.len() - 1)
            } else {
                None
            },
        }
    }
}

pub proof fn lemma_find_entry(entries: Seq<IndexedEntry>, id: RuleId)
    ensures
        match find_entry(entries, id) {
            Some(i) => 0 <= i < entries.len() && entries[i].id == id && forall|j: int|
                0 <= j < i ==> entries[j].id != id,
            None => forall|j: int| 0 <= j < entries.len() ==> entries[j].id != id,
        },
    decreases entries.len(),
{
    if entries.len() > 0 {
        let init = entries.drop_last();
        lemma_find_entry(init, id);
        assert forall|j: int| 0 <= j < init.len() implies init[j] == entries[j] by {}
    }
}

proof fn lemma_find_entry_at(entries: Seq<IndexedEntry>, id: RuleId, i: int)
    requires
        0 <= i < entries.len(),
        entries[i].id == id,
        forall|j: int| 0 <= j < i ==> entries[j].id != id,
    ensures
        find_entry(entries, id) == Some(i),
{
    lemma_find_entry(entries, id);
    match find_entry(entries, id) {
        Some(k) => {
            if k < i {
            } else if k > i {
            }
        },
        None => {},
    }
}

fn entry_position(entries: &Vec<IndexedEntry>, id: RuleId) -> (r: Option<usize>)
    ensures
        match r {
            Some(i) => i < entries@.len() && find_entry(entries@, id) == Some(i as int),
            None => find_entry(entries@, id) is None,
        },
{
    let mut i: usize = 0;
    while i < entries.len()
        invariant
            0 <= i <= entries@.len(),
            forall|j: int| 0 <= j < i ==> entries@[j].id != id,
        decreases entries@.len() - i,
    {
        if entries[i].id == id {
            proof {
                lemma_find_entry_at(entries@, id, i as int);
            }
            return Some(i);
        }
        i += 1;
    }
    proof {
        lemma_find_entry(entries@, id);
    }
    None
}

/// Number of bytes the UTF-8 encoding of a text takes.
pub open spec fn utf8_len(s: Seq<char>) -> nat
    decreases s.len(),
{
    if s.len() == 0 {
        0
    } else {
        let c = s.last() as u32;
        utf8_len(s.drop_last()) + if c < 0x80 {
            1nat
        } else if c < 0x800 {
            2nat
        } else if c < 0x10000 {
            3nat
        } else {
            4nat
        }
    }
}

/// Whether the UTF-8 encoding of `s` is shorter than `n` bytes.
fn utf8_shorter_than(s: &str, n: usize) -> (r: bool)
    ensures
        r == (utf8_len(s@) < n),
{
    if n == 0 {
        return false;
    }
    let v = chars_of(s);
    let mut total: usize = 0;
    let mut i: usize = 0;
    while i < v.len()
        invariant
            0 <= i <= v@.len(),
            v@ == s@,
            total == utf8_len(v@.take(i as int)),
            total < n,
        decreases v@.len() - i,
    {
        assert(v@.take(i + 1).drop_last() =~= v@.take(i as int));
        let c = v[i] as u32;
        let w: usize = if c < 0x80 {
            1
        } else if c < 0x800 {
            2
        } else if c < 0x10000 {
            3
        } else {
            4
        };
        if w >= n - total {
            proof {
                lemma_utf8_len_prefix(v@, i + 1);
            }
            return false;
        }
        total = total + w;
        i += 1;
    }
    assert(v@.take(v@.len() as int) =~= v@);
    true
}

proof fn lemma_utf8_len_prefix(s: Seq<char>, n: int)
    requires
        0 <= n <= s.len(),
    ensures
        utf8_len(s.take(n)) <= utf8_len(s),
    decreases s.len() - n,
{
    if n < s.len() {
        assert(s.take(n + 1).drop_last() =~= s.take(n));
        lemma_utf8_len_prefix(s, n + 1);
    } else {
        assert(s.take(n) =~= s);
    }
}

/// Ids of the entries whose UUID text starts with `prefix`, in index order.
pub open spec fn prefix_matches(entries: Seq<IndexedEntry>, prefix: Seq<char>) -> Seq<RuleId>
    decreases entries.len(),
{
    if entries.len() == 0 {
        Seq::empty()
    } else {
        let init = prefix_matches(entries.drop_last(), prefix);
        if starts_with(uuid_text(entries.last().id), prefix) {
            init.push(entries.last().id)
        } else {
            init
        }
    }
}

/// What a reference to an entry means: a UUID as written; else the one
/// entry whose UUID starts with it (at least four bytes long); else the entry
/// the slug index gives for it.
pub open spec fn resolution(
    entries: Seq<IndexedEntry>,
    slugs: Map<Seq<char>, RuleId>,
    input: Seq<char>,
    recovery_hint: Seq<char>,
) -> Result<RuleId, RuleErrorView> {
    match uuid_value(input) {
        Some(id) => Ok(id),
        None => {
            let found = if utf8_len(input) < 4 {
                Seq::empty()
            } else {
                prefix_matches(entries, input)
            };
            if found.len() == 1 {
                Ok(found[0])
            } else if found.len() > 1 {
                Err(RuleErrorView::AmbiguousPrefix(input))
            } else {
                match map_get(slugs, input) {
                    Some(id) => Ok(id),
                    None => Err(RuleErrorView::NotFound(input + "; "@ + recovery_hint)),
                }
            }
        },
    }
}

pub open spec fn id_result_view(r: Result<RuleId, RuleError>) -> Result<RuleId, RuleErrorView> {
    match r {
        Ok(id) => Ok(id),
        Err(e) => Err(e@),
    }
}

impl RuleIndex {
    /// An empty index.
    pub fn new() -> (r: RuleIndex)
        ensures
            r.entries@.len() == 0,
            r.slugs@ == Map::<Seq<char>, RuleId>::empty(),
    {
        RuleIndex { entries: Vec::new(), slugs: SlugIndex::new() }
    }

    /// The entry whose UUID starts with `prefix`, when exactly one does.
    fn resolve_prefix(&self, prefix: &str) -> (r: Result<Option<RuleId>, RuleError>)
        ensures
            ({
                let found = if utf8_len(prefix@) < 4 {
                    Seq::empty()
                } else {
                    prefix_matches(self.entries@, prefix@)
                };
                match r {
                    Ok(Some(id)) => found.len() == 1 && found[0] == id,
                    Ok(None) => found.len() == 0,
                    Err(e) => found.len() > 1 && e@ == RuleErrorView::AmbiguousPrefix(prefix@),
                }
            }),
    {
        if utf8_shorter_than(prefix, 4) {
            return Ok(None);
        }
        let ghost es = self.entries@;
        let p = chars_of(prefix);
        let mut count: usize = 0;
        let mut first: RuleId = 0;
        let mut i: usize = 0;
        while i < self.entries.len()
            invariant
                0 <= i <= es.len(),
                es == self.entries@,
                p@ == prefix@,
                count <= i,
                count == prefix_matches(es.take(i as int), prefix@).len(),
                count > 0 ==> first == prefix_matches(es.take(i as int), prefix@)[0],
            decreases es.len() - i,
        {
            assert(es.take(i + 1).drop_last() =~= es.take(i as int));
            assert(es.take(i + 1).last() == es[i as int]);
            let text = chars_of(uuid_to_string(self.entries[i].id).as_str());
            if chars_start_with(&text, &p) {
                if count == 0 {
                    first = self.entries[i].id;
                }
                count = count + 1;
            }
            i += 1;
        }
        assert(es.take(es.len() as int) =~= es);
        if count == 0 {
            Ok(None)
        } else if count == 1 {
            Ok(Some(first))
        } else {
            Err(RuleError::AmbiguousPrefix(prefix.to_owned()))
        }
    }

    /// Resolves a UUID, a unique UUID prefix, or a slug to an entry id.
    pub fn resolve_id(&self, id_or_slug: &str, recovery_hint: &str) -> (r: Result<
        RuleId,
        RuleError,
    >)
        ensures
            id_result_view(r) == resolution(
                self.entries@,
                self.slugs@,
                id_or_slug@,
                recovery_hint@,
            ),
    {
        if let Ok(id) = parse_uuid(id_or_slug) {
            return Ok(id);
        }
        match self.resolve_prefix(id_or_slug) {
            Ok(Some(id)) => {
                return Ok(id);
            },
            Ok(None) => {},
            Err(e) => {
                return Err(e);
            },
        }
        match self.slugs.get(id_or_slug) {
            Some(id) => Ok(id),
            None => {
                let mut msg = chars_of(id_or_slug);
                append_str(&mut msg, "; ");
                append_str(&mut msg, recovery_hint);
                Err(RuleError::NotFound(string_from_chars(msg)))
            },
        }
    }

    /// The manifest of the entry a reference names.
    pub fn get(&self, id_or_slug: &str, recovery_hint: &str) -> (r: Result<RuleManifest, RuleError>)
        ensures
            match resolution(self.entries@, self.slugs@, id_or_slug@, recovery_hint@) {
                Err(e) => r matches Err(x) && x@ == e,
                Ok(id) => match find_entry(self.entries@, id) {
                    None => r matches Err(x) && x@ == RuleErrorView::NotFound(uuid_text(id)),
                    Some(i) => r matches Ok(m) && m@ == self.entries@[i].manifest@,
                },
            },
    {
        let id = match self.resolve_id(id_or_slug, recovery_hint) {
            Ok(id) => id,
            Err(e) => {
                return Err(e);
            },
        };
        match entry_position(&self.entries, id) {
            None => Err(RuleError::NotFound(uuid_to_string(id))),
            Some(i) => Ok(self.entries[i].manifest.duplicate()),
        }
    }
}

// ---------------------------------------------------------------------------
// Listing

/// Rules a listing shows: rule entries whose indexed state and fields meet
/// the filter.
pub open spec fn listable(e: IndexedEntry, filter: RuleFilter) -> bool {
    &&& match filter.state {
        Some(s) => e.manifest.spec_state() == Some(s@),
        None => true,
    }
    &&& e.type_id@ == rule_entry_type()
    &&& filter.accepts(e.manifest)
}

/// The listed rules in index order.
pub open spec fn listed(entries: Seq<IndexedEntry>, filter: RuleFilter) -> Seq<ManifestView>
    decreases entries.len(),
{
    if entries.len() == 0 {
        Seq::empty()
    } else {
        let init = listed(entries.drop_last(), filter);
        if listable(entries.last(), filter) {
            init.push(entries.last().manifest@)
        } else {
            init
        }
    }
}

/// A listing orders rules by order key (missing: 0), then by slug (missing:
/// empty).
pub open spec fn list_key_lt(a: ManifestView, b: ManifestView) -> bool {
    let ka = match map_int(a.fields, "order_key"@) {
        Some(k) => k,
        None => 0,
    };
    let kb = match map_int(b.fields, "order_key"@) {
        Some(k) => k,
        None => 0,
    };
    let sa = match map_str(a.fields, "slug"@) {
        Some(x) => x,
        None => Seq::empty(),
    };
    let sb = match map_str(b.fields, "slug"@) {
        Some(x) => x,
        None => Seq::empty(),
    };
    ka < kb || (ka == kb && chars_lt(sa, sb))
}

/// `x` placed behind every rule it does not precede.
pub open spec fn insert_rule(s: Seq<ManifestView>, x: ManifestView) -> Seq<ManifestView>
    decreases s.len(),
{
    if s.len() == 0 {
        seq![x]
    } else if list_key_lt(x, s.last()) {
        insert_rule(s.drop_last(), x).push(s.last())
    } else {
        s.push(x)
    }
}

/// Rules in listing order; rules with equal keys keep their order.
pub open spec fn sorted_rules(s: Seq<ManifestView>) -> Seq<ManifestView>
    decreases s.len(),
{
    if s.len() == 0 {
        Seq::empty()
    } else {
        insert_rule(sorted_rules(s.drop_last()), s.last())
    }
}

/// At most `limit` of the rules, from the front.
pub open spec fn limited(s: Seq<ManifestView>, limit: Option<usize>) -> Seq<ManifestView> {
    match limit {
        Some(n) => if n < s.len() {
            s.take(n as int)
        } else {
            s
        },
        None => s,
    }
}

pub open spec fn manifest_views(v: Seq<RuleManifest>) -> Seq<ManifestView> {
    Seq::new(v.len(), |i: int| v[i]@)
}

fn list_less(a: &RuleManifest, b: &RuleManifest) -> (r: bool)
    ensures
        r == list_key_lt(a@, b@),
{
    let ka: i64 = match a.order_key() {
        Some(k) => k,
        None => 0,
    };
    let kb: i64 = match b.order_key() {
        Some(k) => k,
        None => 0,
    };
    if ka < kb {
        return true;
    }
    if ka > kb {
        return false;
    }
    let sa = match a.slug() {
        Some(x) => chars_of(x),
        None => Vec::new(),
    };
    let sb = match b.slug() {
        Some(x) => chars_of(x),
        None => Vec::new(),
    };
    assert(a.spec_slug() is None ==> sa@ =~= Seq::<char>::empty());
    assert(b.spec_slug() is None ==> sb@ =~= Seq::<char>::empty());
    chars_less(&sa, &sb)
}

fn insert_rule_exec(v: &mut Vec<RuleManifest>, x: RuleManifest)
    ensures
        manifest_views(final(v)@) == insert_rule(manifest_views(old(v)@), x@),
    decreases old(v)@.len(),
{
    let ghost s0 = manifest_views(v@);
    if v.len() == 0 {
        v.push(x);
        assert(manifest_views(v@) =~= seq![x@]);
        return;
    }
    let last = v.pop().unwrap();
    assert(manifest_views(v@) =~= s0.drop_last());
    assert(last@ == s0.last());
    if list_less(&x, &last) {
        insert_rule_exec(v, x);
        let ghost ins = manifest_views(v@);
        v.push(last);
        assert(manifest_views(v@) =~= ins.push(last@));
    } else {
        v.push(last);
        v.push(x);
        assert(manifest_views(v@) =~= s0.push(x@));
    }
}

impl RuleIndex {
    /// Rule entries meeting a filter, ordered by order key then slug, at
    /// most `limit` of them.
    pub fn list(&self, filter: &RuleFilter, limit: Option<usize>) -> (r: Vec<RuleManifest>)
        ensures
            manifest_views(r@) == limited(sorted_rules(listed(self.entries@, *filter)), limit),
    {
        let ghost es = self.entries@;
        let mut sorted: Vec<RuleManifest> = Vec::new();
        let mut i: usize = 0;
        while i < self.entries.len()
            invariant
                0 <= i <= es.len(),
                es == self.entries@,
                manifest_views(sorted@) == sorted_rules(listed(es.take(i as int), *filter)),
            decreases es.len() - i,
        {
            assert(es.take(i + 1).drop_last() =~= es.take(i as int));
            assert(es.take(i + 1).last() == es[i as int]);
            let e = &self.entries[i];
            let state_ok = match &filter.state {
                Some(s) => match e.manifest.state() {
                    Some(st) => str_eq(st, s.as_str()),
                    None => false,
                },
                None => true,
            };
            let ghost prev = listed(es.take(i as int), *filter);
            assert(listed(es.take(i + 1), *filter) == if listable(es[i as int], *filter) {
                prev.push(es[i as int].manifest@)
            } else {
                prev
            });
            if state_ok && str_eq(e.type_id.as_str(), "rule-entry") && filter.matches(&e.manifest) {
                assert(listable(es[i as int], *filter));
                assert(prev.push(es[i as int].manifest@).drop_last() =~= prev);
                insert_rule_exec(&mut sorted, e.manifest.duplicate());
            } else {
                assert(!listable(es[i as int], *filter));
            }
            i += 1;
        }
        assert(es.take(es.len() as int) =~= es);
        if let Some(n) = limit {
            if n < sorted.len() {
                let ghost before = manifest_views(sorted@);
                sorted.truncate(n);
                assert(manifest_views(sorted@) =~= before.take(n as int));
            }
        }
        sorted
    }
}

// ---------------------------------------------------------------------------
// Creating and deleting

/// A rule may be created when it has a valid slug that no other entry uses;
/// gives the slug.
pub open spec fn create_check(slugs: Map<Seq<char>, RuleId>, m: RuleManifest) -> Result<
    Seq<char>,
    RuleErrorView,
> {
    match m.spec_slug() {
        None => Err(RuleErrorView::InvalidSlug("missing slug"@)),
        Some(slug) => match slug_check(slug) {
            Err(e) => Err(e),
            Ok(()) => match map_get(slugs, slug) {
                Some(id) => if id != m.id {
                    Err(RuleErrorView::DuplicateSlug(slug))
                } else {
                    Ok(slug)
                },
                None => Ok(slug),
            },
        },
    }
}

/// `after` is `before` with an entry of the given id, type and manifest in
/// place of the one with that id (or added at the end when there was none).
pub open spec fn stored(
    before: Seq<IndexedEntry>,
    after: Seq<IndexedEntry>,
    id: RuleId,
    type_id: Seq<char>,
    manifest: ManifestView,
) -> bool {
    let k = match find_entry(before, id) {
        Some(i) => i,
        None => before.len() as int,
    };
    &&& after.len() == if k < before.len() {
        before.len()
    } else {
        before.len() + 1
    }
    &&& forall|j: int| 0 <= j < before.len() && j != k ==> after[j] == before[j]
    &&& after[k].id == id
    &&& after[k].type_id@ == type_id
    &&& after[k].manifest@ == manifest
}

impl RuleIndex {
    /// Puts an entry in place of the one with its id, or at the end.
    fn store_entry(&mut self, entry: IndexedEntry)
        ensures
            stored(
                old(self).entries@,
                final(self).entries@,
                entry.id,
                entry.type_id@,
                entry.manifest@,
            ),
            final(self).slugs == old(self).slugs,
    {
        match entry_position(&self.entries, entry.id) {
            Some(i) => {
                self.entries.set(i, entry);
            },
            None => {
                self.entries.push(entry);
            },
        }
    }

    /// Adds a rule entry. Its slug must be valid and not name another entry.
    pub fn create(&mut self, manifest: &RuleManifest) -> (r: Result<RuleId, RuleError>)
        ensures
            match create_check(old(self).slugs@, *manifest) {
                Err(e) => r matches Err(x) && x@ == e && final(self).entries@ == old(self).entries@ && final(self).slugs@ == old(self).slugs@,
                Ok(slug) => r == Ok::<RuleId, RuleError>(manifest.id) && final(self).slugs@ == old(self).slugs@.insert(slug, manifest.id) && stored(
                    old(self).entries@,
                    final(self).entries@,
                    manifest.id,
                    rule_entry_type(),
                    manifest@,
                ),
            },
    {
        let slug = match manifest.slug() {
            None => {
                return Err(RuleError::InvalidSlug("missing slug".to_owned()));
            },
            Some(s) => s,
        };
        match validate_slug(slug) {
            Ok(()) => {},
            Err(e) => {
                return Err(e);
            },
        }
        if let Some(existing) = self.slugs.get(slug) {
            if existing != manifest.id {
                return Err(RuleError::DuplicateSlug(slug.to_owned()));
            }
        }
        let entry = IndexedEntry {
            id: manifest.id,
            type_id: "rule-entry".to_owned(),
            manifest: manifest.duplicate(),
        };
        self.store_entry(entry);
        self.slugs.insert(slug.to_owned(), manifest.id);
        Ok(manifest.id)
    }

    /// Removes a rule entry or a generated-target record, and its slug.
    pub fn delete(&mut self, id_or_slug: &str, recovery_hint: &str) -> (r: Result<(), RuleError>)
        ensures
            match resolution(old(self).entries@, old(self).slugs@, id_or_slug@, recovery_hint@) {
                Err(e) => r matches Err(x) && x@ == e && final(self).entries@ == old(self).entries@ && final(self).slugs@ == old(self).slugs@,
                Ok(id) => match find_entry(old(self).entries@, id) {
                    None => r matches Err(x) && x@ == RuleErrorView::NotFound(uuid_text(id))
                        && final(self).entries@ == old(self).entries@ && final(self).slugs@ == old(self).slugs@,
                    Some(i) => if old(self).entries@[i].type_id@ != rule_entry_type() && old(self).entries@[i].type_id@ != generated_target_type() {
                        r matches Err(x) && x@ == RuleErrorView::NotFound(id_or_slug@) && final(self).entries@ == old(self).entries@ && final(self).slugs@ == old(self).slugs@
                    } else {
                        r is Ok && final(self).entries@ == old(self).entries@.remove(i)
                            && final(self).slugs@ == without_slug_of(
                            old(self).slugs@,
                            old(self).entries@[i].manifest,
                        )
                    },
                },
            },
    {
        let id = match self.resolve_id(id_or_slug, recovery_hint) {
            Ok(id) => id,
            Err(e) => {
                return Err(e);
            },
        };
        let i = match entry_position(&self.entries, id) {
            None => {
                return Err(RuleError::NotFound(uuid_to_string(id)));
            },
            Some(i) => i,
        };
        let kind = self.entries[i].type_id.as_str();
        if !str_eq(kind, "rule-entry") && !str_eq(kind, "generated-target") {
            return Err(RuleError::NotFound(id_or_slug.to_owned()));
        }
        if let Some(slug) = self.entries[i].manifest.slug() {
            let owned = slug.to_owned();
            self.slugs.remove(owned.as_str());
        }
        self.entries.remove(i);
        Ok(())
    }

    /// Rebuilds the slug index from the entries: each entry's slug names it,
    /// a later entry winning over an earlier one.
    pub fn rebuild_slug_index(&mut self)
        ensures
            final(self).slugs@ == slug_map(old(self).entries@),
            final(self).entries == old(self).entries,
    {
        let ghost es = self.entries@;
        let mut next = SlugIndex::new();
        let mut i: usize = 0;
        while i < self.entries.len()
            invariant
                0 <= i <= es.len(),
                es == self.entries@,
                next@ == slug_map(es.take(i as int)),
            decreases es.len() - i,
        {
            assert(es.take(i + 1).drop_last() =~= es.take(i as int));
            assert(es.take(i + 1).last() == es[i as int]);
            if let Some(slug) = self.entries[i].manifest.slug() {
                next.insert(slug.to_owned(), self.entries[i].id);
            }
            i += 1;
        }
        assert(es.take(es.len() as int) =~= es);
        self.slugs = next;
    }
}

/// The slug index without the slug of a manifest.
pub open spec fn without_slug_of(slugs: Map<Seq<char>, RuleId>, m: RuleManifest) -> Map<
    Seq<char>,
    RuleId,
> {
    match m.spec_slug() {
        Some(s) => slugs.remove(s),
        None => slugs,
    }
}

/// Slugs of the entries, each naming its entry; a later entry wins.
pub open spec fn slug_map(entries: Seq<IndexedEntry>) -> Map<Seq<char>, RuleId>
    decreases entries.len(),
{
    if entries.len() == 0 {
        Map::empty()
    } else {
        let m = slug_map(entries.drop_last());
        match entries.last().manifest.spec_slug() {
            Some(s) => m.insert(s, entries.last().id),
            None => m,
        }
    }
}

// ---------------------------------------------------------------------------
// Bodies

/// The ids of the entries, in index order.
pub open spec fn ids_of(entries: Seq<IndexedEntry>) -> Seq<RuleId> {
    Seq::new(entries.len(), |i: int| entries[i].id)
}

/// The manifests of the entries, as values, in index order.
pub open spec fn entry_manifests(entries: Seq<IndexedEntry>) -> Seq<ManifestView> {
    Seq::new(entries.len(), |i: int| entries[i].manifest@)
}

/// A manifest with its body set.
pub open spec fn body_set(m: ManifestView, body: Seq<char>) -> ManifestView {
    ManifestView { fields: m.fields.insert("body"@, JsonView::String(body)), ..m }
}

/// The position of the entry that a reference names, when it names one.
pub open spec fn target_position(
    entries: Seq<IndexedEntry>,
    slugs: Map<Seq<char>, RuleId>,
    reference: Seq<char>,
) -> Option<int> {
    match resolution(entries, slugs, reference, ""@) {
        Ok(id) => find_entry(entries, id),
        Err(_) => None,
    }
}

/// Lookups by id see the ids of the entries only.
pub proof fn lemma_same_ids_same_lookups(a: Seq<IndexedEntry>, b: Seq<IndexedEntry>)
    requires
        ids_of(a) == ids_of(b),
    ensures
        forall|id: RuleId| #[trigger] find_entry(a, id) == find_entry(b, id),
        forall|p: Seq<char>| #[trigger] prefix_matches(a, p) == prefix_matches(b, p),
        forall|slugs: Map<Seq<char>, RuleId>, r: Seq<char>, h: Seq<char>|
            #[trigger] resolution(a, slugs, r, h) == resolution(b, slugs, r, h),
    decreases a.len(),
{
    assert(a.len() == ids_of(a).len() && b.len() == ids_of(b).len());
    if a.len() > 0 {
        assert(ids_of(a.drop_last()) =~= ids_of(a).drop_last());
        assert(ids_of(b.drop_last()) =~= ids_of(b).drop_last());
        assert(a.last().id == ids_of(a)[a.len() - 1]);
        assert(b.last().id == ids_of(b)[b.len() - 1]);
        lemma_same_ids_same_lookups(a.drop_last(), b.drop_last());
        assert forall|id: RuleId| #[trigger] find_entry(a, id) == find_entry(b, id) by {
            assert(find_entry(a.drop_last(), id) == find_entry(b.drop_last(), id));
        }
        assert forall|p: Seq<char>| #[trigger] prefix_matches(a, p) == prefix_matches(b, p) by {
            assert(prefix_matches(a.drop_last(), p) == prefix_matches(b.drop_last(), p));
        }
    }
}

impl RuleIndex {
    /// Sets the body of the entry a reference names.
    pub fn update_body(&mut self, id_or_slug: &str, body: &str, recovery_hint: &str) -> (r: Result<
        (),
        RuleError,
    >)
        ensures
            final(self).slugs == old(self).slugs,
            match resolution(old(self).entries@, old(self).slugs@, id_or_slug@, recovery_hint@) {
                Err(e) => r matches Err(x) && x@ == e && final(self).entries@ == old(self).entries@,
                Ok(id) => match find_entry(old(self).entries@, id) {
                    None => r matches Err(x) && x@ == RuleErrorView::NotFound(uuid_text(id))
                        && final(self).entries@ == old(self).entries@,
                    Some(i) => r is Ok && ids_of(final(self).entries@) == ids_of(old(self).entries@)
                        && entry_manifests(final(self).entries@) == entry_manifests(
                        old(self).entries@,
                    ).update(i, body_set(old(self).entries@[i].manifest@, body@)) && (forall|j: int|
                        0 <= j < old(self).entries@.len() ==> (#[trigger] final(self).entries@[j]).type_id@
                            == old(self).entries@[j].type_id@),
                },
            },
    {
        let id = match self.resolve_id(id_or_slug, recovery_hint) {
            Ok(id) => id,
            Err(e) => {
                return Err(e);
            },
        };
        let i = match entry_position(&self.entries, id) {
            None => {
                return Err(RuleError::NotFound(uuid_to_string(id)));
            },
            Some(i) => i,
        };
        let ghost before = self.entries@;
        proof {
            lemma_find_entry(before, id);
        }
        let mut manifest = self.entries[i].manifest.duplicate();
        manifest.set_body(body);
        let entry = IndexedEntry { id, type_id: self.entries[i].type_id.clone(), manifest };
        self.entries.set(i, entry);
        assert(ids_of(self.entries@) =~= ids_of(before));
        assert(entry_manifests(self.entries@) =~= entry_manifests(before).update(
            i as int,
            body_set(before[i as int].manifest@, body@),
        ));
        Ok(())
    }
}

// ---------------------------------------------------------------------------
// Slug changes

/// The slug an update patch sets: its `slug` field, when that is a string.
pub open spec fn patched_slug(patch: Map<Seq<char>, JsonView>) -> Option<Seq<char>> {
    map_str(patch, "slug"@)
}

/// The current slug of the entry with the given id.
pub open spec fn current_slug(entries: Seq<IndexedEntry>, id: RuleId) -> Option<Seq<char>> {
    match find_entry(entries, id) {
        Some(i) => entries[i].manifest.spec_slug(),
        None => None,
    }
}

/// What a patch does to the slug index: a new slug must be valid and name no
/// other entry; it then replaces the entry's current slug.
pub open spec fn slug_patch_result(
    entries: Seq<IndexedEntry>,
    slugs: Map<Seq<char>, RuleId>,
    id: RuleId,
    patch: Map<Seq<char>, JsonView>,
) -> Result<Map<Seq<char>, RuleId>, RuleErrorView> {
    match patched_slug(patch) {
        None => Ok(slugs),
        Some(s) => match slug_check(s) {
            Err(e) => Err(e),
            Ok(()) => if slugs.contains_key(s) && slugs[s] != id {
                Err(RuleErrorView::DuplicateSlug(s))
            } else {
                let without = match current_slug(entries, id) {
                    Some(prev) => slugs.remove(prev),
                    None => slugs,
                };
                Ok(without.insert(s, id))
            },
        },
    }
}

impl RuleIndex {
    /// Re-keys the slug index when an update patch of the entry `id` sets a
    /// new slug.
    pub fn apply_slug_patch(&mut self, id: RuleId, patch: &Vec<(String, JsonValue)>) -> (r: Result<
        (),
        RuleError,
    >)
        ensures
            final(self).entries == old(self).entries,
            match slug_patch_result(
                old(self).entries@,
                old(self).slugs@,
                id,
                fields_map(json_entry_views(patch@)),
            ) {
                Err(e) => r matches Err(x) && x@ == e && final(self).slugs@ == old(self).slugs@,
                Ok(slugs) => r is Ok && final(self).slugs@ == slugs,
            },
    {
        let new_slug = match fields_get(patch, "slug") {
            Some(v) => match v.as_str() {
                Some(s) => s,
                None => {
                    return Ok(());
                },
            },
            None => {
                return Ok(());
            },
        };
        match validate_slug(new_slug) {
            Ok(()) => {},
            Err(e) => {
                return Err(e);
            },
        }
        if let Some(existing) = self.slugs.get(new_slug) {
            if existing != id {
                return Err(RuleError::DuplicateSlug(new_slug.to_owned()));
            }
        }
        if let Some(i) = entry_position(&self.entries, id) {
            if let Some(old_slug) = self.entries[i].manifest.slug() {
                let owned_old = old_slug.to_owned();
                self.slugs.remove(owned_old.as_str());
            }
        }
        self.slugs.insert(new_slug.to_owned(), id);
        Ok(())
    }
}

// ---------------------------------------------------------------------------
// Records of generated target outputs

/// Where the output of one target of one configuration was written.
#[derive(Debug)]
pub struct GeneratedTargetRecord {
    pub id: RuleId,
    pub slug: String,
    pub config_path: String,
    pub target_name: String,
    pub output_path: String,
}

pub struct RecordView {
    pub id: RuleId,
    pub slug: Seq<char>,
    pub config_path: Seq<char>,
    pub target_name: Seq<char>,
    pub output_path: Seq<char>,
}

impl View for GeneratedTargetRecord {
    type V = RecordView;

    open spec fn view(&self) -> RecordView {
        RecordView {
            id: self.id,
            slug: self.slug@,
            config_path: self.config_path@,
            target_name: self.target_name@,
            output_path: self.output_path@,
        }
    }
}

/// The record an entry's fields describe, when they hold all of it.
pub open spec fn record_of(id: RuleId, f: Map<Seq<char>, JsonView>) -> Option<RecordView> {
    match (
        map_str(f, "slug"@),
        map_str(f, "config_path"@),
        map_str(f, "target_name"@),
        map_str(f, "output_path"@),
    ) {
        (Some(slug), Some(config_path), Some(target_name), Some(output_path)) => Some(
            RecordView { id, slug, config_path, target_name, output_path },
        ),
        _ => None,
    }
}

fn record_from(id: RuleId, m: &RuleManifest) -> (r: Option<GeneratedTargetRecord>)
    ensures
        match record_of(id, m.fields()) {
            Some(v) => r matches Some(x) && x@ == v,
            None => r is None,
        },
{
    let slug = match m.get_str("slug") {
        Some(x) => x.to_owned(),
        None => {
            return None;
        },
    };
    let config_path = match m.get_str("config_path") {
        Some(x) => x.to_owned(),
        None => {
            return None;
        },
    };
    let target_name = match m.get_str("target_name") {
        Some(x) => x.to_owned(),
        None => {
            return None;
        },
    };
    let output_path = match m.get_str("output_path") {
        Some(x) => x.to_owned(),
        None => {
            return None;
        },
    };
    Some(GeneratedTargetRecord { id, slug, config_path, target_name, output_path })
}

/// The fields a generated-target record is refreshed with.
pub open spec fn refreshed_fields(
    f: Map<Seq<char>, JsonView>,
    config_path: Seq<char>,
    target_name: Seq<char>,
    output_path: Seq<char>,
) -> Map<Seq<char>, JsonView> {
    f.insert("title"@, JsonView::String(target_name)).insert(
        "config_path"@,
        JsonView::String(config_path),
    ).insert("target_name"@, JsonView::String(target_name)).insert(
        "output_path"@,
        JsonView::String(output_path),
    ).insert("state"@, JsonView::String("active"@))
}

/// The fields of a new generated-target record.
pub open spec fn record_fields(
    slug: Seq<char>,
    config_path: Seq<char>,
    target_name: Seq<char>,
    output_path: Seq<char>,
) -> Map<Seq<char>, JsonView> {
    Map::<Seq<char>, JsonView>::empty().insert("slug"@, JsonView::String(slug)).insert(
        "title"@,
        JsonView::String(target_name),
    ).insert("type"@, JsonView::String(generated_target_type())).insert(
        "state"@,
        JsonView::String("active"@),
    ).insert("config_path"@, JsonView::String(config_path)).insert(
        "target_name"@,
        JsonView::String(target_name),
    ).insert("output_path"@, JsonView::String(output_path))
}

impl RuleIndex {
    /// Records (or refreshes the record of) where a target's output went. The
    /// record's slug is derived from the configuration and target names; a
    /// slug used by an entry of another type is refused.
    ///
    /// Paths are keyed as given, with each `\` written as `/`.  Making an
    /// existing path canonical needs the file system; the command line does
    /// it before calling, so that two spellings of one
    /// file give one key.
    pub fn upsert_generated_target(
        &mut self,
        config_path: &str,
        target_name: &str,
        output_path: &str,
    ) -> (r: Result<GeneratedTargetRecord, RuleError>)
        ensures
            ({
                let config_key = forward_slashes(config_path@);
                let output_key = forward_slashes(output_path@);
                let slug = generated_slug(config_key, target_name@);
                match map_get(old(self).slugs@, slug) {
                    Some(id) => final(self).slugs@ == old(self).slugs@ && match find_entry(
                        old(self).entries@,
                        id,
                    ) {
                        None => r matches Err(x) && x@ == RuleErrorView::NotFound(uuid_text(id))
                            && final(self).entries@ == old(self).entries@,
                        Some(i) => if old(self).entries@[i].type_id@ != generated_target_type() {
                            r matches Err(x) && x@ == RuleErrorView::DuplicateSlug(slug) && final(self).entries@ == old(self).entries@
                        } else {
                            let m = old(self).entries@[i].manifest@;
                            let f = refreshed_fields(m.fields, config_key, target_name@, output_key);
                            &&& stored(
                                old(self).entries@,
                                final(self).entries@,
                                id,
                                generated_target_type(),
                                ManifestView { id: m.id, created_at: m.created_at, fields: f },
                            )
                            &&& match record_of(id, f) {
                                Some(v) => r matches Ok(rec) && rec@ == v,
                                None => r matches Err(x) && x@ == RuleErrorView::Asset(
                                    "invalid generated-target manifest"@,
                                ),
                            }
                        },
                    },
                    None => r matches Ok(rec) && rec@ == (RecordView {
                        id: rec.id,
                        slug,
                        config_path: config_key,
                        target_name: target_name@,
                        output_path: output_key,
                    }) && final(self).slugs@ == old(self).slugs@.insert(slug, rec.id) && exists|
                        t: Seq<char>,
                    |
                        stored(
                            old(self).entries@,
                            final(self).entries@,
                            rec.id,
                            generated_target_type(),
                            ManifestView {
                                id: rec.id,
                                created_at: t,
                                fields: record_fields(slug, config_key, target_name@, output_key),
                            },
                        ),
                }
            }),
    {
        let config_key = string_from_chars(forward_slashes_exec(&chars_of(config_path)));
        let output_key = string_from_chars(forward_slashes_exec(&chars_of(output_path)));
        let slug = generated_target_slug(config_key.as_str(), target_name);
        if let Some(existing) = self.slugs.get(slug.as_str()) {
            let i = match entry_position(&self.entries, existing) {
                None => {
                    return Err(RuleError::NotFound(uuid_to_string(existing)));
                },
                Some(i) => i,
            };
            if !str_eq(self.entries[i].type_id.as_str(), "generated-target") {
                return Err(RuleError::DuplicateSlug(slug));
            }
            let mut m = self.entries[i].manifest.duplicate();
            m.insert_field("title", JsonValue::string(target_name));
            m.insert_field("config_path", JsonValue::string(config_key.as_str()));
            m.insert_field("target_name", JsonValue::string(target_name));
            m.insert_field("output_path", JsonValue::string(output_key.as_str()));
            m.insert_field("state", JsonValue::string("active"));
            let record = record_from(existing, &m);
            self.store_entry(
                IndexedEntry { id: existing, type_id: "generated-target".to_owned(), manifest: m },
            );
            return match record {
                Some(rec) => Ok(rec),
                None => Err(RuleError::Asset("invalid generated-target manifest".to_owned())),
            };
        }
        let id = crate::manifest::new_uuid();
        let mut m = RuleManifest::from_parts(id, crate::manifest::now_rfc3339());
        m.insert_field("slug", JsonValue::string(slug.as_str()));
        m.insert_field("title", JsonValue::string(target_name));
        m.insert_field("type", JsonValue::string("generated-target"));
        m.insert_field("state", JsonValue::string("active"));
        m.insert_field("config_path", JsonValue::string(config_key.as_str()));
        m.insert_field("target_name", JsonValue::string(target_name));
        m.insert_field("output_path", JsonValue::string(output_key.as_str()));
        let ghost created = m.created_at@;
        assert(m.fields() =~= record_fields(slug@, config_key@, target_name@, output_key@));
        self.store_entry(
            IndexedEntry { id, type_id: "generated-target".to_owned(), manifest: m },
        );
        self.slugs.insert(slug.clone(), id);
        let rec = GeneratedTargetRecord {
            id,
            slug,
            config_path: config_key,
            target_name: target_name.to_owned(),
            output_path: output_key,
        };
        Ok(rec)
    }
}

/// Records of outputs of targets of the configuration with the given key, in
/// index order.
pub open spec fn records_for(entries: Seq<IndexedEntry>, config_key: Seq<char>) -> Seq<RecordView>
    decreases entries.len(),
{
    if entries.len() == 0 {
        Seq::empty()
    } else {
        let init = records_for(entries.drop_last(), config_key);
        let e = entries.last();
        if e.type_id@ == generated_target_type() {
            match record_of(e.id, e.manifest@.fields) {
                Some(rec) => if rec.config_path == config_key {
                    init.push(rec)
                } else {
                    init
                },
                None => init,
            }
        } else {
            init
        }
    }
}

/// `x` placed behind every record whose target name it does not precede.
pub open spec fn insert_record(s: Seq<RecordView>, x: RecordView) -> Seq<RecordView>
    decreases s.len(),
{
    if s.len() == 0 {
        seq![x]
    } else if chars_lt(x.target_name, s.last().target_name) {
        insert_record(s.drop_last(), x).push(s.last())
    } else {
        s.push(x)
    }
}

/// Records ordered by target name; equal names keep their order.
pub open spec fn sorted_records(s: Seq<RecordView>) -> Seq<RecordView>
    decreases s.len(),
{
    if s.len() == 0 {
        Seq::empty()
    } else {
        insert_record(sorted_records(s.drop_last()), s.last())
    }
}

pub open spec fn record_views(v: Seq<GeneratedTargetRecord>) -> Seq<RecordView> {
    Seq::new(v.len(), |i: int| v[i]@)
}

fn insert_record_exec(v: &mut Vec<GeneratedTargetRecord>, x: GeneratedTargetRecord)
    ensures
        record_views(final(v)@) == insert_record(record_views(old(v)@), x@),
    decreases old(v)@.len(),
{
    let ghost s0 = record_views(v@);
    if v.len() == 0 {
        v.push(x);
        assert(record_views(v@) =~= seq![x@]);
        return;
    }
    let last = v.pop().unwrap();
    assert(record_views(v@) =~= s0.drop_last());
    assert(last@ == s0.last());
    if chars_less(&chars_of(x.target_name.as_str()), &chars_of(last.target_name.as_str())) {
        insert_record_exec(v, x);
        let ghost ins = record_views(v@);
        v.push(last);
        assert(record_views(v@) =~= ins.push(last@));
    } else {
        v.push(last);
        v.push(x);
        assert(record_views(v@) =~= s0.push(x@));
    }
}

impl RuleIndex {
    /// The records of outputs of the targets of one configuration, ordered
    /// by target name.
    ///
    /// Paths are keyed as given, with each `\` written as `/`.  Making an
    /// existing path canonical needs the file system; the command line does
    /// it before calling, so that two spellings of one
    /// file give one key.
    pub fn list_generated_targets(&self, config_path: &str) -> (r: Vec<GeneratedTargetRecord>)
        ensures
            record_views(r@) == sorted_records(
                records_for(self.entries@, forward_slashes(config_path@)),
            ),
    {
        let key = forward_slashes_exec(&chars_of(config_path));
        let ghost es = self.entries@;
        let mut out: Vec<GeneratedTargetRecord> = Vec::new();
        let mut i: usize = 0;
        while i < self.entries.len()
            invariant
                0 <= i <= es.len(),
                es == self.entries@,
                key@ == forward_slashes(config_path@),
                record_views(out@) == sorted_records(records_for(es.take(i as int), key@)),
            decreases es.len() - i,
        {
            assert(es.take(i + 1).drop_last() =~= es.take(i as int));
            assert(es.take(i + 1).last() == es[i as int]);
            let ghost prev = records_for(es.take(i as int), key@);
            let e = &self.entries[i];
            if str_eq(e.type_id.as_str(), "generated-target") {
                if let Some(rec) = record_from(e.id, &e.manifest) {
                    if crate::text::chars_eq(&chars_of(rec.config_path.as_str()), &key) {
                        assert(prev.push(rec@).drop_last() =~= prev);
                        insert_record_exec(&mut out, rec);
                    }
                }
            }
            i += 1;
        }
        assert(es.take(es.len() as int) =~= es);
        out
    }

    /// Removes the record a slug (or id) names; only generated-target
    /// records are removed this way.
    pub fn delete_generated_target(&mut self, slug: &str, recovery_hint: &str) -> (r: Result<
        (),
        RuleError,
    >)
        ensures
            match resolution(old(self).entries@, old(self).slugs@, slug@, recovery_hint@) {
                Err(e) => r matches Err(x) && x@ == e && final(self).entries@ == old(self).entries@
                    && final(self).slugs@ == old(self).slugs@,
                Ok(id) => match find_entry(old(self).entries@, id) {
                    None => r matches Err(x) && x@ == RuleErrorView::NotFound(uuid_text(id))
                        && final(self).entries@ == old(self).entries@ && final(self).slugs@ == old(self).slugs@,
                    Some(i) => if old(self).entries@[i].type_id@ != generated_target_type() {
                        r matches Err(x) && x@ == RuleErrorView::NotFound(slug@) && final(self).entries@
                            == old(self).entries@ && final(self).slugs@ == old(self).slugs@
                    } else {
                        r is Ok && final(self).entries@ == old(self).entries@.remove(i)
                            && final(self).slugs@ == without_slug_of(
                            old(self).slugs@,
                            old(self).entries@[i].manifest,
                        )
                    },
                },
            },
    {
        let id = match self.resolve_id(slug, recovery_hint) {
            Ok(id) => id,
            Err(e) => {
                return Err(e);
            },
        };
        let i = match entry_position(&self.entries, id) {
            None => {
                return Err(RuleError::NotFound(uuid_to_string(id)));
            },
            Some(i) => i,
        };
        if !str_eq(self.entries[i].type_id.as_str(), "generated-target") {
            return Err(RuleError::NotFound(slug.to_owned()));
        }
        if let Some(existing) = self.entries[i].manifest.slug() {
            let owned = existing.to_owned();
            self.slugs.remove(owned.as_str());
        }
        self.entries.remove(i);
        Ok(())
    }
}

// ---------------------------------------------------------------------------
// Laws

/// Every entry has its own id.
pub open spec fn ids_distinct(entries: Seq<IndexedEntry>) -> bool {
    forall|i: int, j: int| 0 <= i < j < entries.len() ==> entries[i].id != entries[j].id
}

proof fn lemma_stored_find(
    before: Seq<IndexedEntry>,
    after: Seq<IndexedEntry>,
    id: RuleId,
    type_id: Seq<char>,
    manifest: ManifestView,
)
    requires
        stored(before, after, id, type_id, manifest),
    ensures
        find_entry(after, id) matches Some(k) && after[k].manifest@ == manifest && after[k].type_id@
            == type_id,
{
    lemma_find_entry(before, id);
    let k = match find_entry(before, id) {
        Some(i) => i,
        None => before.len() as int,
    };
    assert forall|j: int| 0 <= j < k implies after[j].id != id by {
        assert(after[j] == before[j]);
    }
    lemma_find_entry_at(after, id, k);
}

/// What `create` stores is what `get` finds: after a successful create, the
/// rule's slug resolves to the rule and its entry holds the manifest given,
/// unless the slug reads as a UUID or a UUID prefix of some entry.
pub proof fn lemma_create_then_get(
    before: Seq<IndexedEntry>,
    after: Seq<IndexedEntry>,
    slugs: Map<Seq<char>, RuleId>,
    m: RuleManifest,
    hint: Seq<char>,
)
    requires
        create_check(slugs, m) is Ok,
        stored(before, after, m.id, rule_entry_type(), m@),
        uuid_value(create_check(slugs, m)->Ok_0) is None,
        utf8_len(create_check(slugs, m)->Ok_0) < 4 || prefix_matches(
            after,
            create_check(slugs, m)->Ok_0,
        ).len() == 0,
    ensures
        ({
            let slug = create_check(slugs, m)->Ok_0;
            &&& resolution(after, slugs.insert(slug, m.id), slug, hint) == Ok::<
                RuleId,
                RuleErrorView,
            >(m.id)
            &&& find_entry(after, m.id) matches Some(k) && after[k].manifest@ == m@
        }),
{
    lemma_stored_find(before, after, m.id, rule_entry_type(), m@);
}

/// Creating keeps every entry's id its own.
pub proof fn lemma_create_keeps_ids_distinct(
    before: Seq<IndexedEntry>,
    after: Seq<IndexedEntry>,
    id: RuleId,
    type_id: Seq<char>,
    manifest: ManifestView,
)
    requires
        ids_distinct(before),
        stored(before, after, id, type_id, manifest),
    ensures
        ids_distinct(after),
{
    lemma_find_entry(before, id);
    let k = match find_entry(before, id) {
        Some(i) => i,
        None => before.len() as int,
    };
    assert forall|i: int, j: int| 0 <= i < j < after.len() implies after[i].id != after[j].id by {
        if i != k && j != k {
            assert(after[i] == before[i] && after[j] == before[j]);
        } else if i == k {
            assert(after[j] == before[j]);
        } else {
            assert(after[i] == before[i]);
        }
    }
}

/// A deleted entry is gone: its id finds nothing and its slug names nothing.
pub proof fn lemma_delete_removes(
    before: Seq<IndexedEntry>,
    slugs: Map<Seq<char>, RuleId>,
    id: RuleId,
)
    requires
        ids_distinct(before),
        find_entry(before, id) is Some,
    ensures
        ({
            let i = find_entry(before, id)->Some_0;
            &&& find_entry(before.remove(i), id) is None
            &&& before[i].manifest.spec_slug() matches Some(s) ==> !without_slug_of(
                slugs,
                before[i].manifest,
            ).contains_key(s)
        }),
{
    lemma_find_entry(before, id);
    let i = find_entry(before, id)->Some_0;
    let after = before.remove(i);
    assert forall|j: int| 0 <= j < after.len() implies after[j].id != id by {
        if j < i {
            assert(after[j] == before[j]);
        } else {
            assert(after[j] == before[j + 1]);
        }
    }
    lemma_find_entry(after, id);
}

/// The slug of every generated-target record is a valid slug.
pub proof fn lemma_generated_slug_valid(config_path: Seq<char>, target_name: Seq<char>)
    ensures
        slug_check(generated_slug(config_path, target_name)) is Ok,
{
    reveal_strlit("generated-targets/");
    reveal_strlit("/");
    let s = generated_slug(config_path, target_name);
    let a = "generated-targets/"@;
    let b = sanitized(config_path);
    let c = sanitized(target_name);
    assert(s == a + b + "/"@ + c);
    assert forall|i: int| 0 <= i < s.len() implies is_slug_char(#[trigger] s[i]) by {
        if i < a.len() {
            assert(s[i] == a[i]);
        } else if i < a.len() + b.len() {
            assert(s[i] == b[i - a.len()]);
        } else if i < a.len() + b.len() + 1 {
            assert(s[i] == '/');
        } else {
            assert(s[i] == c[i - a.len() - b.len() - 1]);
        }
    }
    assert(s.len() > 0);
}

} // verus!

verus! {

/// After a slug patch succeeds, its slug resolves to the patched entry and
/// the entry's former slug, when different, names nothing; unless the new
/// slug reads as a UUID or as a UUID prefix of some entry.
pub proof fn lemma_slug_patch_then_resolve(
    entries: Seq<IndexedEntry>,
    slugs: Map<Seq<char>, RuleId>,
    id: RuleId,
    patch: Map<Seq<char>, JsonView>,
    hint: Seq<char>,
)
    requires
        slug_patch_result(entries, slugs, id, patch) is Ok,
        patched_slug(patch) is Some,
        uuid_value(patched_slug(patch)->0) is None,
        utf8_len(patched_slug(patch)->0) < 4 || prefix_matches(entries, patched_slug(patch)->0).len()
            == 0,
    ensures
        ({
            let s = patched_slug(patch)->0;
            let after = slug_patch_result(entries, slugs, id, patch)->Ok_0;
            &&& resolution(entries, after, s, hint) == Ok::<RuleId, RuleErrorView>(id)
            &&& (current_slug(entries, id) matches Some(prev) ==> (prev != s ==> !after.contains_key(prev)))
        }),
{
}

} // verus!

verus! {

// ---------------------------------------------------------------------------
// Listing order

/// No rule of the listing precedes an earlier one.
pub open spec fn list_ordered(s: Seq<ManifestView>) -> bool {
    forall|i: int, j: int| 0 <= i < j < s.len() ==> !list_key_lt(#[trigger] s[j], #[trigger] s[i])
}

/// The listing order is a strict order whose "not after" is transitive.
proof fn lemma_list_key_order(a: ManifestView, b: ManifestView, c: ManifestView)
    ensures
        !list_key_lt(a, a),
        list_key_lt(a, b) ==> !list_key_lt(b, a),
        !list_key_lt(b, a) && !list_key_lt(c, b) ==> !list_key_lt(c, a),
{
    let sa = match map_str(a.fields, "slug"@) {
        Some(x) => x,
        None => Seq::<char>::empty(),
    };
    let sb = match map_str(b.fields, "slug"@) {
        Some(x) => x,
        None => Seq::<char>::empty(),
    };
    let sc = match map_str(c.fields, "slug"@) {
        Some(x) => x,
        None => Seq::<char>::empty(),
    };
    lemma_chars_lt_irreflexive(sa);
    lemma_chars_lt_total(sa, sb);
    lemma_chars_lt_total(sb, sc);
    if chars_lt(sa, sb) && chars_lt(sb, sa) {
        lemma_chars_lt_transitive(sa, sb, sa);
    }
    if chars_lt(sc, sa) && chars_lt(sa, sb) {
        lemma_chars_lt_transitive(sc, sa, sb);
    }
}

/// Placing a rule keeps a listing ordered, and adds just that rule.
proof fn lemma_insert_rule(s: Seq<ManifestView>, x: ManifestView)
    requires
        list_ordered(s),
    ensures
        list_ordered(insert_rule(s, x)),
        insert_rule(s, x).to_multiset() == s.to_multiset().insert(x),
        insert_rule(s, x).len() == s.len() + 1,
        forall|e: ManifestView| #[trigger] insert_rule(s, x).contains(e) ==> e == x || s.contains(e),
    decreases s.len(),
{
    broadcast use vstd::seq_lib::group_to_multiset_ensures;

    let r = insert_rule(s, x);
    if s.len() == 0 {
        assert(r =~= seq![x]);
        assert(seq![x] =~= Seq::<ManifestView>::empty().push(x));
        assert(s =~= Seq::<ManifestView>::empty());
    } else {
        let init = s.drop_last();
        let last = s.last();
        assert(s =~= init.push(last));
        if list_key_lt(x, last) {
            assert(list_ordered(init)) by {
                assert forall|i: int, j: int| 0 <= i < j < init.len() implies !list_key_lt(
                    #[trigger] init[j],
                    #[trigger] init[i],
                ) by {
                    assert(init[j] == s[j] && init[i] == s[i]);
                }
            }
            lemma_insert_rule(init, x);
            let ins = insert_rule(init, x);
            assert(r == ins.push(last));
            assert forall|i: int, j: int| 0 <= i < j < r.len() implies !list_key_lt(
                #[trigger] r[j],
                #[trigger] r[i],
            ) by {
                if j == r.len() - 1 {
                    assert(r[j] == last);
                    assert(r[i] == ins[i]);
                    assert(ins.contains(ins[i]));
                    if ins[i] == x {
                        lemma_list_key_order(x, last, x);
                    } else {
                        let k = choose|k: int| 0 <= k < init.len() && init[k] == ins[i];
                        assert(s[k] == init[k]);
                        assert(s[s.len() - 1] == last);
                    }
                } else {
                    assert(r[j] == ins[j] && r[i] == ins[i]);
                }
            }
            assert forall|e: ManifestView| #[trigger] r.contains(e) implies e == x || s.contains(e) by {
                let k = choose|k: int| 0 <= k < r.len() && r[k] == e;
                if k == r.len() - 1 {
                    assert(s[s.len() - 1] == e);
                } else {
                    assert(ins[k] == e);
                    assert(ins.contains(e));
                    if e != x {
                        let w = choose|w: int| 0 <= w < init.len() && init[w] == e;
                        assert(s[w] == e);
                    }
                }
            }
        } else {
            assert(r == s.push(x));
            assert forall|i: int, j: int| 0 <= i < j < r.len() implies !list_key_lt(
                #[trigger] r[j],
                #[trigger] r[i],
            ) by {
                if j == r.len() - 1 {
                    assert(r[j] == x);
                    assert(r[i] == s[i]);
                    if i < s.len() - 1 {
                        assert(!list_key_lt(s[s.len() - 1], s[i]));
                    }
                    lemma_list_key_order(s[i], last, x);
                } else {
                    assert(r[j] == s[j] && r[i] == s[i]);
                }
            }
            assert forall|e: ManifestView| #[trigger] r.contains(e) implies e == x || s.contains(e) by {
                let k = choose|k: int| 0 <= k < r.len() && r[k] == e;
                if k < s.len() {
                    assert(s[k] == e);
                }
            }
        }
    }
}

/// Sorting yields an ordered listing of the same rules.
proof fn lemma_sorted_rules(s: Seq<ManifestView>)
    ensures
        list_ordered(sorted_rules(s)),
        sorted_rules(s).to_multiset() == s.to_multiset(),
    decreases s.len(),
{
    broadcast use vstd::seq_lib::group_to_multiset_ensures;

    if s.len() > 0 {
        lemma_sorted_rules(s.drop_last());
        lemma_insert_rule(sorted_rules(s.drop_last()), s.last());
        assert(s =~= s.drop_last().push(s.last()));
    }
}

/// A listing is ordered by order key, then slug; before its limit applies it
/// holds exactly the rules that meet the filter.
pub proof fn lemma_list_ordered(entries: Seq<IndexedEntry>, filter: RuleFilter, limit: Option<usize>)
    ensures
        list_ordered(limited(sorted_rules(listed(entries, filter)), limit)),
        sorted_rules(listed(entries, filter)).to_multiset() == listed(entries, filter).to_multiset(),
{
    let s = sorted_rules(listed(entries, filter));
    lemma_sorted_rules(listed(entries, filter));
    let r = limited(s, limit);
    assert forall|i: int, j: int| 0 <= i < j < r.len() implies !list_key_lt(
        #[trigger] r[j],
        #[trigger] r[i],
    ) by {
        assert(r[j] == s[j] && r[i] == s[i]);
    }
}

} // verus!

verus! {

// ---------------------------------------------------------------------------
// Records written and read back

proof fn lemma_record_keys()
    ensures
        "slug"@.len() == 4 && "type"@.len() == 4 && "title"@.len() == 5 && "state"@.len() == 5,
        "config_path"@.len() == 11 && "target_name"@.len() == 11 && "output_path"@.len() == 11,
        "slug"@[0] == 's' && "type"@[0] == 't',
        "config_path"@[0] == 'c' && "target_name"@[0] == 't' && "output_path"@[0] == 'o',
{
    reveal_strlit("slug");
    reveal_strlit("type");
    reveal_strlit("title");
    reveal_strlit("state");
    reveal_strlit("config_path");
    reveal_strlit("target_name");
    reveal_strlit("output_path");
}

/// A new record's fields describe that record.
pub proof fn lemma_record_fields(
    id: RuleId,
    slug: Seq<char>,
    config_path: Seq<char>,
    target_name: Seq<char>,
    output_path: Seq<char>,
)
    ensures
        record_of(id, record_fields(slug, config_path, target_name, output_path)) == Some(
            RecordView { id, slug, config_path, target_name, output_path },
        ),
{
    lemma_record_keys();
}

/// Refreshed fields keep describing a record of the same configuration,
/// target and output, as long as they name a slug.
pub proof fn lemma_refreshed_fields(
    id: RuleId,
    f: Map<Seq<char>, JsonView>,
    config_path: Seq<char>,
    target_name: Seq<char>,
    output_path: Seq<char>,
)
    ensures
        record_of(id, refreshed_fields(f, config_path, target_name, output_path)) matches Some(v)
            ==> v.config_path == config_path && v.target_name == target_name && v.output_path
            == output_path,
{
    lemma_record_keys();
}

proof fn lemma_records_for_contains(entries: Seq<IndexedEntry>, k: int, rec: RecordView)
    requires
        0 <= k < entries.len(),
        entries[k].type_id@ == generated_target_type(),
        record_of(entries[k].id, entries[k].manifest@.fields) == Some(rec),
    ensures
        records_for(entries, rec.config_path).contains(rec),
    decreases entries.len(),
{
    let init = entries.drop_last();
    if k < entries.len() - 1 {
        assert(init[k] == entries[k]);
        lemma_records_for_contains(init, k, rec);
        let r0 = records_for(init, rec.config_path);
        let w = choose|w: int| 0 <= w < r0.len() && r0[w] == rec;
        let r = records_for(entries, rec.config_path);
        assert(r[w] == rec);
    } else {
        let r = records_for(entries, rec.config_path);
        assert(r[r.len() - 1] == rec);
    }
}

proof fn lemma_insert_record_contains(s: Seq<RecordView>, x: RecordView)
    ensures
        insert_record(s, x).contains(x),
        forall|e: RecordView| s.contains(e) ==> #[trigger] insert_record(s, x).contains(e),
    decreases s.len(),
{
    let r = insert_record(s, x);
    if s.len() == 0 {
        assert(r[0] == x);
    } else {
        let init = s.drop_last();
        if chars_lt(x.target_name, s.last().target_name) {
            lemma_insert_record_contains(init, x);
            let ins = insert_record(init, x);
            let w = choose|w: int| 0 <= w < ins.len() && ins[w] == x;
            assert(r == ins.push(s.last()));
            assert(r[w] == x);
            assert forall|e: RecordView| s.contains(e) implies #[trigger] r.contains(e) by {
                let k = choose|k: int| 0 <= k < s.len() && s[k] == e;
                if k == s.len() - 1 {
                    assert(r[r.len() - 1] == e);
                } else {
                    assert(init[k] == e);
                    assert(init.contains(e));
                    assert(ins.contains(e));
                    let v = choose|v: int| 0 <= v < ins.len() && ins[v] == e;
                    assert(r == ins.push(s.last()));
                    assert(r[v] == e);
                }
            }
        } else {
            assert(r[r.len() - 1] == x);
            assert forall|e: RecordView| s.contains(e) implies #[trigger] r.contains(e) by {
                let k = choose|k: int| 0 <= k < s.len() && s[k] == e;
                assert(r[k] == e);
            }
        }
    }
}

proof fn lemma_sorted_records_contains(s: Seq<RecordView>)
    ensures
        forall|e: RecordView| s.contains(e) ==> #[trigger] sorted_records(s).contains(e),
    decreases s.len(),
{
    if s.len() > 0 {
        let init = s.drop_last();
        lemma_sorted_records_contains(init);
        lemma_insert_record_contains(sorted_records(init), s.last());
        assert forall|e: RecordView| s.contains(e) implies #[trigger] sorted_records(s).contains(e) by {
            let k = choose|k: int| 0 <= k < s.len() && s[k] == e;
            if k < s.len() - 1 {
                assert(init[k] == e);
                assert(init.contains(e));
            }
        }
    }
}

/// What `upsert_generated_target` stores is what `list_generated_targets`
/// reads back: an entry stored with fields that describe a record makes that
/// record part of the listing of its configuration.
pub proof fn lemma_upsert_then_list(
    before: Seq<IndexedEntry>,
    after: Seq<IndexedEntry>,
    id: RuleId,
    manifest: ManifestView,
    rec: RecordView,
)
    requires
        stored(before, after, id, generated_target_type(), manifest),
        record_of(id, manifest.fields) == Some(rec),
    ensures
        sorted_records(records_for(after, rec.config_path)).contains(rec),
{
    lemma_stored_find(before, after, id, generated_target_type(), manifest);
    lemma_find_entry(after, id);
    let k = find_entry(after, id)->0;
    lemma_records_for_contains(after, k, rec);
    lemma_sorted_records_contains(records_for(after, rec.config_path));
}

} // verus!

verus! {

proof fn lemma_insert_record_only(s: Seq<RecordView>, x: RecordView)
    ensures
        forall|e: RecordView| #[trigger] insert_record(s, x).contains(e) ==> e == x || s.contains(e),
    decreases s.len(),
{
    let r = insert_record(s, x);
    if s.len() > 0 {
        let init = s.drop_last();
        if chars_lt(x.target_name, s.last().target_name) {
            lemma_insert_record_only(init, x);
            let ins = insert_record(init, x);
            assert(r == ins.push(s.last()));
            assert forall|e: RecordView| #[trigger] r.contains(e) implies e == x || s.contains(e) by {
                let k = choose|k: int| 0 <= k < r.len() && r[k] == e;
                if k == r.len() - 1 {
                    assert(s[s.len() - 1] == e);
                } else {
                    assert(ins[k] == e);
                    assert(ins.contains(e));
                    if e != x {
                        let w = choose|w: int| 0 <= w < init.len() && init[w] == e;
                        assert(s[w] == e);
                    }
                }
            }
        } else {
            assert forall|e: RecordView| #[trigger] r.contains(e) implies e == x || s.contains(e) by {
                let k = choose|k: int| 0 <= k < r.len() && r[k] == e;
                if k < s.len() {
                    assert(s[k] == e);
                }
            }
        }
    } else {
        assert forall|e: RecordView| #[trigger] r.contains(e) implies e == x || s.contains(e) by {
            assert(r[0] == x);
        }
    }
}

proof fn lemma_sorted_records_only(s: Seq<RecordView>)
    ensures
        forall|e: RecordView| #[trigger] sorted_records(s).contains(e) ==> s.contains(e),
    decreases s.len(),
{
    if s.len() > 0 {
        let init = s.drop_last();
        lemma_sorted_records_only(init);
        lemma_insert_record_only(sorted_records(init), s.last());
        assert forall|e: RecordView| #[trigger] sorted_records(s).contains(e) implies s.contains(e) by {
            if e == s.last() {
                assert(s[s.len() - 1] == e);
            } else {
                assert(sorted_records(init).contains(e));
                let w = choose|w: int| 0 <= w < init.len() && init[w] == e;
                assert(s[w] == e);
            }
        }
    }
}

proof fn lemma_records_for_ids(entries: Seq<IndexedEntry>, key: Seq<char>)
    ensures
        forall|rec: RecordView|
            #[trigger] records_for(entries, key).contains(rec) ==> exists|k: int|
                0 <= k < entries.len() && entries[k].id == rec.id,
    decreases entries.len(),
{
    if entries.len() > 0 {
        let init = entries.drop_last();
        lemma_records_for_ids(init, key);
        let r = records_for(entries, key);
        let r0 = records_for(init, key);
        assert forall|rec: RecordView| #[trigger] r.contains(rec) implies exists|k: int|
            0 <= k < entries.len() && entries[k].id == rec.id by {
            let w = choose|w: int| 0 <= w < r.len() && r[w] == rec;
            if w < r0.len() {
                assert(r0[w] == rec);
                assert(r0.contains(rec));
                let k = choose|k: int| 0 <= k < init.len() && init[k].id == rec.id;
                assert(entries[k] == init[k]);
            } else {
                let e = entries.last();
                assert(record_of(e.id, e.manifest@.fields) matches Some(x) && x == rec);
                assert(entries[entries.len() - 1].id == rec.id);
            }
        }
    }
}

/// What `delete_generated_target` removes, `list_generated_targets` no longer
/// reads: once the entry of a record is removed, no listed record is that
/// entry's (entry ids being distinct).
pub proof fn lemma_delete_then_list(before: Seq<IndexedEntry>, i: int, key: Seq<char>)
    requires
        ids_distinct(before),
        0 <= i < before.len(),
    ensures
        forall|rec: RecordView|
            #[trigger] sorted_records(records_for(before.remove(i), key)).contains(rec) ==> rec.id
                != before[i].id,
{
    let after = before.remove(i);
    lemma_sorted_records_only(records_for(after, key));
    lemma_records_for_ids(after, key);
    assert forall|rec: RecordView|
        #[trigger] sorted_records(records_for(after, key)).contains(rec) implies rec.id
            != before[i].id by {
        assert(records_for(after, key).contains(rec));
        let k = choose|k: int| 0 <= k < after.len() && after[k].id == rec.id;
        if k < i {
            assert(after[k] == before[k]);
        } else {
            assert(after[k] == before[k + 1]);
        }
    }
}

} // verus!

verus! {

/// What `update_body` writes is what `get` reads: after the body of the
/// entry at `i` is set, the entry's id still finds it, and its body is the
/// new one.
pub proof fn lemma_update_body_then_get(
    before: Seq<IndexedEntry>,
    after: Seq<IndexedEntry>,
    i: int,
    body: Seq<char>,
)
    requires
        0 <= i < before.len(),
        ids_of(after) == ids_of(before),
        entry_manifests(after) == entry_manifests(before).update(
            i,
            body_set(before[i].manifest@, body),
        ),
        find_entry(before, before[i].id) == Some(i),
    ensures
        find_entry(after, before[i].id) == Some(i),
        after[i].manifest@.fields.contains_key("body"@),
        map_str(after[i].manifest@.fields, "body"@) == Some(body),
{
    lemma_same_ids_same_lookups(after, before);
    assert(after.len() == ids_of(after).len() && before.len() == ids_of(before).len());
    assert(entry_manifests(after)[i] == after[i].manifest@);
}

} // verus!

verus! {

/// A reference holding a `/` is the prefix of no entry's UUID.
pub proof fn lemma_slashed_prefix_matches(entries: Seq<IndexedEntry>, s: Seq<char>)
    requires
        s.contains('/'),
    ensures
        prefix_matches(entries, s).len() == 0,
    decreases entries.len(),
{
    if entries.len() > 0 {
        lemma_slashed_prefix_matches(entries.drop_last(), s);
        lemma_slash_is_no_uuid(s, entries.last().id);
    }
}

/// Create then get, for a slug holding a `/` (as rule slugs do): after a
/// successful create the slug resolves to the rule, its entry holds the
/// manifest given, and a second rule with the same slug and another id is
/// refused as a duplicate.
pub proof fn lemma_create_then_get_by_slug(
    before: Seq<IndexedEntry>,
    after: Seq<IndexedEntry>,
    slugs: Map<Seq<char>, RuleId>,
    m: RuleManifest,
    other: RuleManifest,
    hint: Seq<char>,
)
    requires
        create_check(slugs, m) is Ok,
        stored(before, after, m.id, rule_entry_type(), m@),
        create_check(slugs, m)->Ok_0.contains('/'),
        other.spec_slug() == m.spec_slug(),
        other.id != m.id,
    ensures
        ({
            let slug = create_check(slugs, m)->Ok_0;
            &&& resolution(after, slugs.insert(slug, m.id), slug, hint) == Ok::<
                RuleId,
                RuleErrorView,
            >(m.id)
            &&& find_entry(after, m.id) matches Some(k) && after[k].manifest@ == m@
            &&& create_check(slugs.insert(slug, m.id), other) == Err::<Seq<char>, RuleErrorView>(
                RuleErrorView::DuplicateSlug(slug),
            )
        }),
{
    let slug = create_check(slugs, m)->Ok_0;
    lemma_slash_is_no_uuid(slug, m.id);
    lemma_slashed_prefix_matches(after, slug);
    lemma_create_then_get(before, after, slugs, m, hint);
}

} // verus!
