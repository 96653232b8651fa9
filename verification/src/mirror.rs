//! Download sources: the built-in official and BMCLAPI sources, the preferred
//! source, and the BMCLAPI rewriting of Mojang URLs into mirror URLs.
use vstd::prelude::*;
use crate::text::{
    chars_of, contains_exec, contains_seq, find_last, occurs_at, push_all, seq_eq, slice_vec,
    string_of, trim_end_char, trim_end_char_exec,
};

verus! {

/// Kind of a download source.
#[derive(Clone, Copy, Debug, PartialEq, Eq, Structural)]
pub enum DownloadSourceType {
    Official,
    Bmclapi,
    Custom,
}

/// Mirror preference of the launcher.
#[derive(Clone, Copy, Debug, PartialEq, Eq, Structural)]
pub enum DownloadMirror {
    Official,
    Bmclapi,
}

/// Kind of resource a URL points at.
#[derive(Clone, Copy, Debug, PartialEq, Eq, Structural)]
pub enum ResourceType {
    Version,
    Library,
    Asset,
    ModLoader,
    Java,
}

/// A download source.
pub struct DownloadSource {
    pub source_type: DownloadSourceType,
    pub name: String,
    pub base_url: String,
    pub is_enabled: bool,
    pub priority: i32,
    pub description: Option<String>,
}

impl DownloadSource {
    /// A field-by-field copy.
    pub fn copy(&self) -> (r: DownloadSource)
        ensures
            r == *self,
    {
        DownloadSource {
            source_type: self.source_type,
            name: self.name.clone(),
            base_url: self.base_url.clone(),
            is_enabled: self.is_enabled,
            priority: self.priority,
            description: match &self.description {
                Some(d) => Some(d.clone()),
                None => None,
            },
        }
    }
}

/// The default source manager: an official source and a BMCLAPI source, plus any
/// custom sources, never two of the same kind.
pub struct DefaultDownloadSourceManager {
    pub sources: Vec<DownloadSource>,
}

/// Every kind occurs at most once.
pub open spec fn kinds_distinct(s: Seq<DownloadSource>) -> bool {
    forall|i: int, j: int|
        0 <= i < s.len() && 0 <= j < s.len() && i != j ==> (#[trigger] s[i]).source_type
            != (#[trigger] s[j]).source_type
}

/// Every priority can be lowered by one without leaving the `i32` range.
pub open spec fn priorities_lowerable(s: Seq<DownloadSource>) -> bool {
    forall|i: int| 0 <= i < s.len() ==> (#[trigger] s[i]).priority > i32::MIN
}

// ---------------------------------------------------------------------------
// Mirror URL rewriting
// ---------------------------------------------------------------------------

/// The part of `s` after the last occurrence of `p`, or all of `s` when `p` does not
/// occur (the last piece of a split at `p`).
pub open spec fn after_last(s: Seq<char>, p: Seq<char>) -> Seq<char> {
    if contains_seq(s, p) {
        let i = choose|i: int|
            occurs_at(s, p, i) && forall|j: int| i < j ==> !occurs_at(s, p, j);
        s.skip(i + p.len())
    } else {
        s
    }
}

/// Only a BMCLAPI source rewrites; Maven, asset and metadata URLs
/// become `{base}/maven/…`, `{base}/assets/…`, `{base}/meta/…` with the text after the
/// last "maven/", "assets/" or "meta/" (the whole URL when that marker is absent);
/// anything else has no mirror.
pub open spec fn mirror_url(orig: Seq<char>, source_type: DownloadSourceType, base_url: Seq<char>) -> Option<Seq<char>> {
    let b = trim_end_char(base_url, '/');
    if source_type != DownloadSourceType::Bmclapi {
        None
    } else if contains_seq(orig, "launcher.mojang.com/maven"@) {
        Some(b + "/maven/"@ + after_last(orig, "maven/"@))
    } else if contains_seq(orig, "resources.download.minecraft.net"@) {
        Some(b + "/assets/"@ + after_last(orig, "assets/"@))
    } else if contains_seq(orig, "piston-meta.mojang.com"@) {
        Some(b + "/meta/"@ + after_last(orig, "meta/"@))
    } else {
        None
    }
}

/// The mirror URL an enabled source of the list gives for `orig` (at most one source
/// rewrites, since kinds are distinct), when it differs from `orig`.
pub open spec fn extra_mirror(srcs: Seq<DownloadSource>, orig: Seq<char>, upto: int) -> Option<Seq<char>>
    decreases upto,
{
    if upto <= 0 {
        None
    } else {
        let s = srcs[upto - 1];
        match mirror_url(orig, s.source_type, s.base_url@) {
            Some(m) => if s.is_enabled && m != orig {
                Some(m)
            } else {
                extra_mirror(srcs, orig, upto - 1)
            },
            None => extra_mirror(srcs, orig, upto - 1),
        }
    }
}

pub fn after_last_exec(s: &[char], p: &[char]) -> (r: Vec<char>)
    ensures
        r@ == after_last(s@, p@),
{
    match find_last(s, p) {
        Some(i) => {
            proof {
                assert(contains_seq(s@, p@));
                let c = choose|c: int|
                    occurs_at(s@, p@, c) && forall|j: int| c < j ==> !occurs_at(s@, p@, j);
                assert(occurs_at(s@, p@, c) && forall|j: int| c < j ==> !occurs_at(s@, p@, j));
                if c < i {
                    assert(!occurs_at(s@, p@, i as int));
                }
                if c > i {
                    assert(!occurs_at(s@, p@, c));
                }
                assert(c == i);
            }
            assert(occurs_at(s@, p@, i as int));
            assert(i + p.len() <= s.len());
            slice_vec(s, i + p.len(), s.len())
        },
        None => {
            proof {
                assert(!contains_seq(s@, p@));
            }
            slice_vec(s, 0, s.len())
        },
    }
}


/// The mirror address of a download address for one source.
pub fn convert_to_mirror_url(original_url: &str, source: &DownloadSource) -> (r: Option<String>)
    ensures
        match (r, mirror_url(original_url@, source.source_type, source.base_url@)) {
            (Some(a), Some(b)) => a@ == b,
            (None, None) => true,
            _ => false,
        },
{
    if source.source_type != DownloadSourceType::Bmclapi {
        return None;
    }
    let orig = chars_of(original_url);
    let base = trim_end_char_exec(chars_of(source.base_url.as_str()).as_slice(), '/');
    if contains_exec(orig.as_slice(), chars_of("launcher.mojang.com/maven").as_slice()) {
        let mut r = slice_vec(base.as_slice(), 0, base.len());
        push_all(&mut r, chars_of("/maven/").as_slice());
        push_all(&mut r, after_last_exec(orig.as_slice(), chars_of("maven/").as_slice()).as_slice());
        proof {
            assert(base@.subrange(0, base@.len() as int) =~= base@);
        }
        return Some(string_of(r.as_slice()));
    }
    if contains_exec(orig.as_slice(), chars_of("resources.download.minecraft.net").as_slice()) {
        let mut r = slice_vec(base.as_slice(), 0, base.len());
        push_all(&mut r, chars_of("/assets/").as_slice());
        push_all(&mut r, after_last_exec(orig.as_slice(), chars_of("assets/").as_slice()).as_slice());
        proof {
            assert(base@.subrange(0, base@.len() as int) =~= base@);
        }
        return Some(string_of(r.as_slice()));
    }
    if contains_exec(orig.as_slice(), chars_of("piston-meta.mojang.com").as_slice()) {
        let mut r = slice_vec(base.as_slice(), 0, base.len());
        push_all(&mut r, chars_of("/meta/").as_slice());
        push_all(&mut r, after_last_exec(orig.as_slice(), chars_of("meta/").as_slice()).as_slice());
        proof {
            assert(base@.subrange(0, base@.len() as int) =~= base@);
        }
        return Some(string_of(r.as_slice()));
    }
    None
}


// ---------------------------------------------------------------------------
// Source lists
// ---------------------------------------------------------------------------

/// Position of the first source of the kind, or -1.
pub open spec fn type_index(s: Seq<DownloadSource>, t: DownloadSourceType) -> int
    decreases s.len(),
{
    if s.len() == 0 {
        -1
    } else {
        let i = type_index(s.drop_last(), t);
        if i >= 0 {
            i
        } else if s.last().source_type == t {
            s.len() - 1
        } else {
            -1
        }
    }
}

/// The smallest priority of a non-empty list.
pub open spec fn min_priority(s: Seq<DownloadSource>) -> int
    decreases s.len(),
{
    if s.len() <= 1 {
        if s.len() == 1 {
            s[0].priority as int
        } else {
            0
        }
    } else {
        let m = min_priority(s.drop_last());
        if (s.last().priority as int) < m {
            s.last().priority as int
        } else {
            m
        }
    }
}

/// The first source of the kind, unless it already has the
/// smallest priority, gets that priority minus one.
pub open spec fn prefer(s: Seq<DownloadSource>, t: DownloadSourceType) -> Seq<DownloadSource> {
    let k = type_index(s, t);
    if k < 0 || s[k].priority as int == min_priority(s) {
        s
    } else {
        s.update(k, DownloadSource { priority: (min_priority(s) - 1) as i32, ..s[k] })
    }
}

/// The enabled sources, in list order.
pub open spec fn enabled_only(s: Seq<DownloadSource>) -> Seq<DownloadSource>
    decreases s.len(),
{
    if s.len() == 0 {
        s
    } else {
        let r = enabled_only(s.drop_last());
        if s.last().is_enabled {
            r.push(s.last())
        } else {
            r
        }
    }
}

/// Puts `x` after every source whose priority is at most its own (stable insertion).
pub open spec fn insert_by_priority(sorted: Seq<DownloadSource>, x: DownloadSource) -> Seq<DownloadSource>
    decreases sorted.len(),
{
    if sorted.len() == 0 {
        seq![x]
    } else if sorted.last().priority <= x.priority {
        sorted.push(x)
    } else {
        insert_by_priority(sorted.drop_last(), x).push(sorted.last())
    }
}

/// The sources ordered by ascending priority, ties kept in list order (`sort_by_key`).
pub open spec fn by_priority(s: Seq<DownloadSource>) -> Seq<DownloadSource>
    decreases s.len(),
{
    if s.len() == 0 {
        s
    } else {
        insert_by_priority(by_priority(s.drop_last()), s.last())
    }
}

/// The original URL followed by each source's distinct mirror URL, in source order.
pub open spec fn mirror_list(s: Seq<DownloadSource>, orig: Seq<char>) -> Seq<Seq<char>>
    decreases s.len(),
{
    if s.len() == 0 {
        seq![orig]
    } else {
        let r = mirror_list(s.drop_last(), orig);
        match mirror_url(orig, s.last().source_type, s.last().base_url@) {
            Some(m) => if m != orig {
                r.push(m)
            } else {
                r
            },
            None => r,
        }
    }
}

/// The original URL, then the mirror URLs of the enabled sources
/// in ascending priority.
pub open spec fn generated_urls(s: Seq<DownloadSource>, orig: Seq<char>) -> Seq<Seq<char>> {
    mirror_list(by_priority(enabled_only(s)), orig)
}

/// Index of the first enabled source with the smallest priority, or -1.
pub open spec fn preferred_index(s: Seq<DownloadSource>) -> int
    decreases s.len(),
{
    if s.len() == 0 {
        -1
    } else {
        let p = preferred_index(s.drop_last());
        if !s.last().is_enabled {
            p
        } else if p < 0 || s.last().priority < s[p].priority {
            s.len() - 1
        } else {
            p
        }
    }
}

proof fn lemma_type_index(s: Seq<DownloadSource>, t: DownloadSourceType)
    ensures
        -1 <= type_index(s, t) < s.len(),
        type_index(s, t) >= 0 ==> s[type_index(s, t)].source_type == t,
        type_index(s, t) >= 0 ==> forall|k: int|
            0 <= k < type_index(s, t) ==> (#[trigger] s[k]).source_type != t,
        type_index(s, t) < 0 ==> forall|k: int| 0 <= k < s.len() ==> (#[trigger] s[k]).source_type != t,
    decreases s.len(),
{
    if s.len() > 0 {
        lemma_type_index(s.drop_last(), t);
        assert forall|k: int| 0 <= k < s.len() - 1 implies #[trigger] s[k] == s.drop_last()[k] by {}
    }
}

proof fn lemma_min_priority(s: Seq<DownloadSource>)
    requires
        s.len() > 0,
    ensures
        forall|k: int| 0 <= k < s.len() ==> min_priority(s) <= (#[trigger] s[k]).priority,
        exists|k: int| 0 <= k < s.len() && min_priority(s) == (#[trigger] s[k]).priority,
    decreases s.len(),
{
    if s.len() > 1 {
        lemma_min_priority(s.drop_last());
        assert forall|k: int| 0 <= k < s.len() - 1 implies #[trigger] s[k] == s.drop_last()[k] by {}
        let k0 = choose|k: int|
            0 <= k < s.len() - 1 && min_priority(s.drop_last()) == (#[trigger] s.drop_last()[k]).priority;
        if (s.last().priority as int) < min_priority(s.drop_last()) {
            assert(min_priority(s) == s[s.len() - 1].priority);
        } else {
            assert(min_priority(s) == s[k0].priority);
        }
    } else {
        assert(min_priority(s) == s[0].priority);
    }
}

proof fn lemma_insert_by_priority(sorted: Seq<DownloadSource>, x: DownloadSource, j: int)
    requires
        0 <= j <= sorted.len(),
        forall|k: int| j <= k < sorted.len() ==> (#[trigger] sorted[k]).priority > x.priority,
        j > 0 ==> sorted[j - 1].priority <= x.priority,
    ensures
        insert_by_priority(sorted, x) == sorted.insert(j, x),
    decreases sorted.len(),
{
    if sorted.len() == 0 {
        assert(sorted.insert(j, x) =~= seq![x]);
    } else if sorted.last().priority <= x.priority {
        assert(j == sorted.len());
        assert(sorted.insert(j, x) =~= sorted.push(x));
    } else {
        assert(j < sorted.len());
        let d = sorted.drop_last();
        assert forall|k: int| j <= k < d.len() implies (#[trigger] d[k]).priority > x.priority by {
            assert(d[k] == sorted[k]);
        }
        lemma_insert_by_priority(d, x, j);
        assert(d.insert(j, x).push(sorted.last()) =~= sorted.insert(j, x));
    }
}

proof fn lemma_mirror_list_shape(s: Seq<DownloadSource>, orig: Seq<char>)
    ensures
        mirror_list(s, orig).len() >= 1,
        mirror_list(s, orig)[0] == orig,
        forall|k: int| 1 <= k < mirror_list(s, orig).len() ==> #[trigger] mirror_list(s, orig)[k] != orig,
    decreases s.len(),
{
    if s.len() > 0 {
        lemma_mirror_list_shape(s.drop_last(), orig);
    }
}

/// The generated list always starts with the original URL, and no later entry repeats it.
pub proof fn lemma_generated_urls_original_first(s: Seq<DownloadSource>, orig: Seq<char>)
    ensures
        generated_urls(s, orig).len() >= 1,
        generated_urls(s, orig)[0] == orig,
        forall|k: int|
            1 <= k < generated_urls(s, orig).len() ==> #[trigger] generated_urls(s, orig)[k] != orig,
{
    lemma_mirror_list_shape(by_priority(enabled_only(s)), orig);
}

proof fn lemma_preferred_index(s: Seq<DownloadSource>)
    ensures
        -1 <= preferred_index(s) < s.len(),
        preferred_index(s) < 0 ==> forall|j: int| 0 <= j < s.len() ==> !(#[trigger] s[j]).is_enabled,
        preferred_index(s) >= 0 ==> {
            let p = preferred_index(s);
            &&& s[p].is_enabled
            &&& forall|j: int| 0 <= j < s.len() && (#[trigger] s[j]).is_enabled ==> s[p].priority <= s[j].priority
            &&& forall|j: int| 0 <= j < p && (#[trigger] s[j]).is_enabled ==> s[p].priority < s[j].priority
        },
    decreases s.len(),
{
    if s.len() > 0 {
        let d = s.drop_last();
        lemma_preferred_index(d);
        assert forall|j: int| 0 <= j < d.len() implies #[trigger] s[j] == d[j] by {}
    }
}

/// Asking for a kind of source makes it the preferred one: after `prefer(s, t)`, the
/// preferred source is the first source of kind `t`, provided that source is enabled
/// and no enabled source before it already has its priority or a smaller one.
pub proof fn lemma_prefer_makes_preferred(s: Seq<DownloadSource>, t: DownloadSourceType)
    requires
        priorities_lowerable(s),
        type_index(s, t) >= 0,
        s[type_index(s, t)].is_enabled,
        forall|j: int|
            0 <= j < type_index(s, t) && (#[trigger] s[j]).is_enabled ==> s[j].priority > s[type_index(
                s,
                t,
            )].priority,
    ensures
        preferred_index(prefer(s, t)) == type_index(s, t),
{
    let k = type_index(s, t);
    lemma_type_index(s, t);
    lemma_min_priority(s);
    let n = prefer(s, t);
    lemma_preferred_index(n);
    let p = preferred_index(n);
    assert(n.len() == s.len());
    assert(n[k].is_enabled);
    if s[k].priority as int == min_priority(s) {
        assert(n == s);
        assert(p >= 0);
        assert(n[p].priority <= n[k].priority);
        if p < k {
            assert(n[p].priority > n[k].priority);
        }
        if p > k {
            assert(n[k].priority <= n[p].priority);
            assert(n[p].priority >= min_priority(s));
            assert(n[p].priority < n[k].priority);
        }
    } else {
        assert(n[k].priority == min_priority(s) - 1);
        assert forall|j: int| 0 <= j < n.len() && j != k implies #[trigger] n[j].priority > n[k].priority by {
            assert(n[j] == s[j]);
        }
        assert(p >= 0);
        if p != k {
            assert(n[p].priority <= n[k].priority);
        }
    }
}

impl Default for DefaultDownloadSourceManager {
    /// The built-in sources with BMCLAPI preferred.
    fn default() -> (r: DefaultDownloadSourceManager)
        ensures
            r.sources@.len() == 2,
            r.sources@[0].source_type == DownloadSourceType::Official,
            r.sources@[0].name@ == "Mojang官方"@,
            r.sources@[0].base_url@ == "https://launcher.mojang.com/"@,
            r.sources@[0].priority == 100,
            r.sources@[0].description is None,
            r.sources@[1].source_type == DownloadSourceType::Bmclapi,
            r.sources@[1].name@ == "BMCLAPI镜像"@,
            r.sources@[1].base_url@ == "https://bmclapi2.bangbang93.com/"@,
            r.sources@[1].priority == 1,
            r.sources@[1].description is None,
            r.sources@[0].is_enabled && r.sources@[1].is_enabled,
            kinds_distinct(r.sources@),
            priorities_lowerable(r.sources@),
            preferred_index(r.sources@) == 1,
    {
        DefaultDownloadSourceManager::new(DownloadMirror::Bmclapi)
    }
}

impl DefaultDownloadSourceManager {
    /// The built-in sources, with the official one made preferred when asked for.
    pub fn new(preferred_mirror: DownloadMirror) -> (r: DefaultDownloadSourceManager)
        ensures
            r.sources@.len() == 2,
            r.sources@[0].source_type == DownloadSourceType::Official,
            r.sources@[0].name@ == "Mojang官方"@,
            r.sources@[0].base_url@ == "https://launcher.mojang.com/"@,
            r.sources@[0].is_enabled,
            r.sources@[0].priority == (if preferred_mirror == DownloadMirror::Official {
                0i32
            } else {
                100i32
            }),
            r.sources@[0].description is None,
            r.sources@[1].source_type == DownloadSourceType::Bmclapi,
            r.sources@[1].name@ == "BMCLAPI镜像"@,
            r.sources@[1].base_url@ == "https://bmclapi2.bangbang93.com/"@,
            r.sources@[1].is_enabled,
            r.sources@[1].priority == 1,
            r.sources@[1].description is None,
            kinds_distinct(r.sources@),
            priorities_lowerable(r.sources@),
            preferred_index(r.sources@) == (if preferred_mirror == DownloadMirror::Official {
                0int
            } else {
                1int
            }),
    {
        let mut sources: Vec<DownloadSource> = Vec::new();
        sources.push(
            DownloadSource {
                source_type: DownloadSourceType::Official,
                name: String::from_str("Mojang官方"),
                base_url: String::from_str("https://launcher.mojang.com/"),
                is_enabled: true,
                priority: 100,
                description: None,
            },
        );
        sources.push(
            DownloadSource {
                source_type: DownloadSourceType::Bmclapi,
                name: String::from_str("BMCLAPI镜像"),
                base_url: String::from_str("https://bmclapi2.bangbang93.com/"),
                is_enabled: true,
                priority: 1,
                description: None,
            },
        );
        let mut manager = DefaultDownloadSourceManager { sources };
        let ghost s0 = manager.sources@;
        proof {
            assert(s0.drop_last() =~= seq![s0[0]]);
            assert(s0.drop_last().drop_last() =~= Seq::<DownloadSource>::empty());
            assert(type_index(s0.drop_last().drop_last(), DownloadSourceType::Official) == -1);
            assert(type_index(s0.drop_last(), DownloadSourceType::Official) == 0);
            assert(type_index(s0, DownloadSourceType::Official) == 0);
            assert(min_priority(s0.drop_last()) == 100);
            assert(min_priority(s0) == 1);
        }
        if preferred_mirror == DownloadMirror::Official {
            manager.set_preferred_source(DownloadSourceType::Official);
            proof {
                assert(manager.sources@ == s0.update(
                    0,
                    DownloadSource { priority: 0i32, ..s0[0] },
                ));
            }
        }
        proof {
            let s1 = manager.sources@;
            assert(s1.drop_last() =~= seq![s1[0]]);
            assert(s1.drop_last().drop_last() =~= Seq::<DownloadSource>::empty());
            assert(preferred_index(s1.drop_last().drop_last()) == -1);
            assert(preferred_index(s1.drop_last()) == 0);
        }
        manager
    }

    /// Makes a source kind the preferred one.
    pub fn set_preferred_source(&mut self, source_type: DownloadSourceType)
        requires
            priorities_lowerable(old(self).sources@),
        ensures
            final(self).sources@ == prefer(old(self).sources@, source_type),
    {
        proof {
            lemma_type_index(self.sources@, source_type);
        }
        let mut index: usize = 0;
        while index < self.sources.len() && self.sources[index].source_type != source_type
            invariant
                index <= self.sources.len(),
                forall|k: int| 0 <= k < index ==> (#[trigger] self.sources@[k]).source_type != source_type,
            decreases self.sources.len() - index,
        {
            index = index + 1;
        }
        if index == self.sources.len() {
            proof {
                if type_index(self.sources@, source_type) >= 0 {
                    let k = type_index(self.sources@, source_type);
                    assert(self.sources@[k].source_type == source_type);
                }
            }
            return;
        }
        proof {
            let k = type_index(self.sources@, source_type);
            assert(k >= 0);
            if k < index {
                assert(self.sources@[k].source_type == source_type);
            }
            assert(k == index);
            lemma_min_priority(self.sources@);
        }
        let mut min: i32 = self.sources[0].priority;
        let mut i: usize = 1;
        proof {
            assert(self.sources@.take(1) =~= seq![self.sources@[0]]);
        }
        while i < self.sources.len()
            invariant
                1 <= i <= self.sources.len(),
                min as int == min_priority(self.sources@.take(i as int)),
            decreases self.sources.len() - i,
        {
            proof {
                assert(self.sources@.take(i + 1).drop_last() =~= self.sources@.take(i as int));
            }
            if self.sources[i].priority < min {
                min = self.sources[i].priority;
            }
            i = i + 1;
        }
        proof {
            assert(self.sources@.take(self.sources.len() as int) =~= self.sources@);
            assert(self.sources@[index as int].priority > i32::MIN);
            assert(min <= self.sources@[index as int].priority);
        }
        if self.sources[index].priority != min {
            let old_src = self.sources.remove(index);
            let updated = DownloadSource { priority: min - 1, ..old_src };
            self.sources.insert(index, updated);
            proof {
                assert(self.sources@ =~= prefer(old(self).sources@, source_type));
            }
        }
    }

    /// The enabled sources (the resource type is not consulted).
    pub fn get_available_sources(&self, resource_type: ResourceType) -> (r: Vec<DownloadSource>)
        ensures
            r@ == enabled_only(self.sources@),
    {
        let mut r: Vec<DownloadSource> = Vec::new();
        let mut i: usize = 0;
        proof {
            assert(self.sources@.take(0) =~= Seq::<DownloadSource>::empty());
        }
        while i < self.sources.len()
            invariant
                i <= self.sources.len(),
                r@ == enabled_only(self.sources@.take(i as int)),
            decreases self.sources.len() - i,
        {
            proof {
                assert(self.sources@.take(i + 1).drop_last() =~= self.sources@.take(i as int));
            }
            if self.sources[i].is_enabled {
                r.push(self.sources[i].copy());
            }
            i = i + 1;
        }
        proof {
            assert(self.sources@.take(self.sources.len() as int) =~= self.sources@);
        }
        r
    }

    /// The enabled sources in ascending priority, ties in list order.
    pub fn sources_by_priority(&self) -> (r: Vec<DownloadSource>)
        ensures
            r@ == by_priority(enabled_only(self.sources@)),
    {
        let enabled = self.get_available_sources(ResourceType::Library);
        let mut sorted: Vec<DownloadSource> = Vec::new();
        let mut i: usize = 0;
        proof {
            assert(enabled@.take(0) =~= Seq::<DownloadSource>::empty());
        }
        while i < enabled.len()
            invariant
                i <= enabled.len(),
                sorted@ == by_priority(enabled@.take(i as int)),
            decreases enabled.len() - i,
        {
            let x = enabled[i].copy();
            let mut j: usize = sorted.len();
            while j > 0 && sorted[j - 1].priority > x.priority
                invariant
                    j <= sorted.len(),
                    forall|k: int| j <= k < sorted.len() ==> (#[trigger] sorted@[k]).priority > x.priority,
                decreases j,
            {
                j = j - 1;
            }
            proof {
                lemma_insert_by_priority(sorted@, x, j as int);
                assert(enabled@.take(i + 1).drop_last() =~= enabled@.take(i as int));
                assert(enabled@.take(i + 1).last() == x);
            }
            sorted.insert(j, x);
            i = i + 1;
        }
        proof {
            assert(enabled@.take(enabled.len() as int) =~= enabled@);
        }
        sorted
    }

    /// The original URL first, then every distinct mirror URL of
    /// the enabled sources in ascending priority (the resource type is not consulted).
    pub fn generate_mirror_urls(&self, original_url: &str, resource_type: ResourceType) -> (r: Vec<String>)
        ensures
            r@.len() == generated_urls(self.sources@, original_url@).len(),
            forall|k: int|
                0 <= k < r@.len() ==> #[trigger] r@[k]@ == generated_urls(self.sources@, original_url@)[k],
    {
        let ordered = self.sources_by_priority();
        let orig = chars_of(original_url);
        let mut urls: Vec<String> = Vec::new();
        urls.push(string_of(orig.as_slice()));
        let mut i: usize = 0;
        proof {
            assert(ordered@.take(0) =~= Seq::<DownloadSource>::empty());
        }
        while i < ordered.len()
            invariant
                i <= ordered.len(),
                orig@ == original_url@,
                urls@.len() == mirror_list(ordered@.take(i as int), original_url@).len(),
                forall|k: int|
                    0 <= k < urls@.len() ==> #[trigger] urls@[k]@ == mirror_list(
                        ordered@.take(i as int),
                        original_url@,
                    )[k],
            decreases ordered.len() - i,
        {
            proof {
                assert(ordered@.take(i + 1).drop_last() =~= ordered@.take(i as int));
                assert(ordered@.take(i + 1).last() == ordered@[i as int]);
            }
            match convert_to_mirror_url(original_url, &ordered[i]) {
                Some(m) => {
                    if !seq_eq(chars_of(m.as_str()).as_slice(), orig.as_slice()) {
                        urls.push(m);
                    }
                },
                None => {},
            }
            i = i + 1;
        }
        proof {
            assert(ordered@.take(ordered.len() as int) =~= ordered@);
        }
        urls
    }

    /// Registers a source of a kind not yet present.
    pub fn add_custom_source(&mut self, source: DownloadSource)
        requires
            forall|k: int|
                0 <= k < old(self).sources@.len() ==> (#[trigger] old(self).sources@[k]).source_type
                    != source.source_type,
        ensures
            final(self).sources@ == old(self).sources@.push(source),
    {
        self.sources.push(source);
    }

    /// Whether a source of the kind is registered (what adding a custom source refuses to repeat).
    pub fn has_source_type(&self, source_type: DownloadSourceType) -> (r: bool)
        ensures
            r == exists|k: int|
                0 <= k < self.sources@.len() && (#[trigger] self.sources@[k]).source_type
                    == source_type,
    {
        let mut i: usize = 0;
        while i < self.sources.len()
            invariant
                i <= self.sources.len(),
                forall|k: int| 0 <= k < i ==> (#[trigger] self.sources@[k]).source_type != source_type,
            decreases self.sources.len() - i,
        {
            if self.sources[i].source_type == source_type {
                return true;
            }
            i = i + 1;
        }
        false
    }

    /// The first enabled source with the smallest priority.
    pub fn get_preferred_source(&self, resource_type: ResourceType) -> (r: Option<DownloadSource>)
        ensures
            match r {
                Some(s) => preferred_index(self.sources@) >= 0 && s == self.sources@[preferred_index(
                    self.sources@,
                )],
                None => preferred_index(self.sources@) < 0,
            },
    {
        let mut best: Option<usize> = None;
        let mut i: usize = 0;
        proof {
            assert(self.sources@.take(0) =~= Seq::<DownloadSource>::empty());
        }
        while i < self.sources.len()
            invariant
                i <= self.sources.len(),
                match best {
                    Some(b) => b < i && b as int == preferred_index(self.sources@.take(i as int)),
                    None => preferred_index(self.sources@.take(i as int)) < 0,
                },
            decreases self.sources.len() - i,
        {
            proof {
                let t = self.sources@.take(i + 1);
                assert(t.drop_last() =~= self.sources@.take(i as int));
                assert(t.last() == self.sources@[i as int]);
                match best {
                    Some(b) => {
                        assert(t[b as int] == self.sources@.take(i as int)[b as int]);
                    },
                    None => {},
                }
            }
            if self.sources[i].is_enabled {
                match best {
                    None => {
                        best = Some(i);
                    },
                    Some(b) => {
                        if self.sources[i].priority < self.sources[b].priority {
                            best = Some(i);
                        }
                    },
                }
            }
            i = i + 1;
        }
        proof {
            assert(self.sources@.take(self.sources.len() as int) =~= self.sources@);
        }
        match best {
            Some(b) => Some(self.sources[b].copy()),
            None => None,
        }
    }
}

} // verus!
