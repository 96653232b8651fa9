//! Loader version entries built from the metadata services' answers (Fabric-style
//! meta APIs, BMCLAPI, NeoForge Maven, Cleanroom releases), and the download URLs
//! they point at.
use vstd::prelude::*;
use vstd::utf8::encode_utf8;
use crate::text::{
    ascii_lower, ascii_lower_exec, chars_of, contains_exec, contains_seq, eq_ignore_case,
    eq_ignore_case_exec, push_all, replace_all, replace_exec, split_any, split_any_exec,
    string_of,
};
use crate::num::{parse_i32, parse_i32_exec};
use crate::loader::{
    dedup_versions, sort_and_deduplicate, sort_desc, sort_descending, ModLoaderResult,
    ModLoaderType,
};
use crate::mirror::DownloadMirror;
use crate::mcversion::{
    before_first, before_first_exec, matches_mc, matches_minecraft_version, matches_mc_trimmed, matches_minecraft_version_trimmed,
    neoforge_mc_version, parse_neoforge_minecraft_version, version_parses, version_try_parse,
};
use crate::urlcode::{escape_data_string, escaped};

verus! {

/// The text fields of an entry.
pub ghost struct LoaderView {
    pub loader_type: ModLoaderType,
    pub version: Seq<char>,
    pub game_version: Seq<char>,
    pub url: Seq<char>,
    pub sha1: Seq<char>,
    pub is_recommand: bool,
    pub release_time: Seq<char>,
}

impl View for ModLoaderResult {
    type V = LoaderView;

    open spec fn view(&self) -> LoaderView {
        LoaderView {
            loader_type: self.loader_type,
            version: self.version@,
            game_version: self.game_version@,
            url: self.url@,
            sha1: self.sha1@,
            is_recommand: self.is_recommand,
            release_time: self.release_time@,
        }
    }
}

pub open spec fn views(s: Seq<ModLoaderResult>) -> Seq<LoaderView> {
    s.map_values(|r: ModLoaderResult| r@)
}

pub open spec fn entry(t: ModLoaderType, version: Seq<char>, game: Seq<char>, url: Seq<char>, sha1: Seq<char>, rec: bool) -> LoaderView {
    LoaderView {
        loader_type: t,
        version,
        game_version: game,
        url,
        sha1,
        is_recommand: rec,
        release_time: crate::loader::min_release_time(),
    }
}

/// Percent-encoding of a text's UTF-8 bytes.
pub open spec fn esc(s: Seq<char>) -> Seq<char> {
    escaped(encode_utf8(s))
}


pub(crate) fn esc_chars(s: &str) -> (r: Vec<char>)
    ensures
        r@ == esc(s@),
{
    chars_of(escape_data_string(s).as_str())
}

fn make_entry(t: ModLoaderType, version: &[char], game: &[char], url: &[char], sha1: &[char], rec: bool) -> (r: ModLoaderResult)
    ensures
        r@ == entry(t, version@, game@, url@, sha1@, rec),
{
    ModLoaderResult {
        loader_type: t,
        version: string_of(version),
        game_version: string_of(game),
        url: string_of(url),
        sha1: string_of(sha1),
        is_recommand: rec,
        release_time: String::from_str("0001-01-01T00:00:00+00:00"),
    }
}

/// Fabric meta endpoint of the mirror preference.
pub fn get_fabric_base_url(mirror: DownloadMirror) -> (r: String)
    ensures
        r@ == if mirror == DownloadMirror::Bmclapi {
            "https://bmclapi2.bangbang93.com/fabric-meta/v2/versions"@
        } else {
            "https://meta.fabricmc.net/v2/versions"@
        },
{
    if mirror == DownloadMirror::Bmclapi {
        String::from_str("https://bmclapi2.bangbang93.com/fabric-meta/v2/versions")
    } else {
        String::from_str("https://meta.fabricmc.net/v2/versions")
    }
}

// ---------------------------------------------------------------------------
// Fabric-style loader lists (Fabric, Quilt, Legacy Fabric, Babric)
// ---------------------------------------------------------------------------

/// A JSON `stable` flag: a string, a boolean, or some other value.
pub enum FlagValue {
    Text(String),
    Bool(bool),
    Other,
}

/// The flag reads as true: the boolean `true` or the text "true" in any ASCII case.
pub open spec fn flag_true(f: Option<FlagValue>) -> bool {
    match f {
        Some(FlagValue::Text(s)) => eq_ignore_case(s@, "true"@),
        Some(FlagValue::Bool(b)) => b,
        _ => false,
    }
}

/// The `loader` object of an entry of a `/loader/{version}` answer.
pub struct LoaderEntry {
    pub version: Option<String>,
    pub stable: Option<FlagValue>,
}

pub open spec fn opt_text(s: Option<String>) -> Seq<char> {
    match s {
        Some(t) => t@,
        None => Seq::empty(),
    }
}

/// An answer entry with a `loader` object and a non-empty loader version gives an entry
/// for the requested game version; its download URL is the "API未提供" placeholder.
pub open spec fn loader_item(t: ModLoaderType, it: Option<LoaderEntry>, mc: Seq<char>) -> Option<LoaderView> {
    match it {
        None => None,
        Some(e) => if opt_text(e.version).len() == 0 {
            None
        } else {
            Some(entry(t, opt_text(e.version), mc, "API未提供"@, Seq::empty(), flag_true(e.stable)))
        },
    }
}

pub open spec fn loader_items(t: ModLoaderType, items: Seq<Option<LoaderEntry>>, mc: Seq<char>) -> Seq<LoaderView>
    decreases items.len(),
{
    if items.len() == 0 {
        Seq::empty()
    } else {
        let r = loader_items(t, items.drop_last(), mc);
        match loader_item(t, items.last(), mc) {
            Some(v) => r.push(v),
            None => r,
        }
    }
}

fn flag_true_exec(f: &Option<FlagValue>) -> (r: bool)
    ensures
        r == flag_true(*f),
{
    match f {
        Some(FlagValue::Text(s)) => {
            let t = chars_of("true");
            eq_ignore_case_exec(chars_of(s.as_str()).as_slice(), t.as_slice())
        },
        Some(FlagValue::Bool(b)) => *b,
        _ => false,
    }
}

/// The entries of a Fabric-style `/loader/{version}` answer, in answer order.
pub fn loader_results(loader_type: ModLoaderType, items: &Vec<Option<LoaderEntry>>, minecraft_version: &str) -> (r: Vec<ModLoaderResult>)
    ensures
        views(r@) == loader_items(loader_type, items@, minecraft_version@),
{
    let mut r: Vec<ModLoaderResult> = Vec::new();
    let mc = chars_of(minecraft_version);
    let placeholder = chars_of("API未提供");
    let empty: Vec<char> = Vec::new();
    let mut i: usize = 0;
    proof {
        assert(items@.take(0) =~= Seq::<Option<LoaderEntry>>::empty());
        assert(views(r@) =~= Seq::<LoaderView>::empty());
    }
    while i < items.len()
        invariant
            i <= items.len(),
            mc@ == minecraft_version@,
            placeholder@ == "API未提供"@,
            empty@ == Seq::<char>::empty(),
            views(r@) == loader_items(loader_type, items@.take(i as int), minecraft_version@),
        decreases items.len() - i,
    {
        proof {
            assert(items@.take(i + 1).drop_last() =~= items@.take(i as int));
            assert(items@.take(i + 1).last() == items@[i as int]);
        }
        let ghost before = r@;
        match &items[i] {
            None => {},
            Some(e) => {
                let v = match &e.version {
                    Some(s) => chars_of(s.as_str()),
                    None => Vec::new(),
                };
                if v.len() > 0 {
                    let x = make_entry(loader_type, v.as_slice(), mc.as_slice(), placeholder.as_slice(), empty.as_slice(), flag_true_exec(&e.stable));
                    r.push(x);
                    proof {
                        assert(views(r@) =~= views(before).push(x@));
                    }
                }
            },
        }
        i = i + 1;
    }
    proof {
        assert(items@.take(items.len() as int) =~= items@);
    }
    r
}

/// The loader versions of a Fabric-style answer: its entries, one per version, newest first.
pub fn loader_versions(loader_type: ModLoaderType, items: &Vec<Option<LoaderEntry>>, minecraft_version: &str) -> (r: Vec<ModLoaderResult>)
    ensures
        exists|u: Seq<ModLoaderResult>|
            views(u) == loader_items(loader_type, items@, minecraft_version@) && r@ == sort_desc(
                dedup_versions(u),
            ),
{
    let u = loader_results(loader_type, items, minecraft_version);
    sort_and_deduplicate(u)
}

// ---------------------------------------------------------------------------
// BMCLAPI lists: OptiFine, LiteLoader, NeoForge
// ---------------------------------------------------------------------------

/// An entry of the BMCLAPI OptiFine list (absent fields as empty text).
pub struct OptifineItem {
    pub mcversion: String,
    pub patch: String,
    pub edition: String,
    pub forge: String,
}

/// Entries with a game version, a type and a patch become `{type}-{patch}` versions
/// downloadable from BMCLAPI; "Forge N/A" in the forge field marks them recommended.
pub open spec fn optifine_item(it: OptifineItem) -> Option<LoaderView> {
    if it.mcversion@.len() == 0 || it.edition@.len() == 0 || it.patch@.len() == 0 {
        None
    } else {
        Some(
            entry(
                ModLoaderType::OptiFine,
                it.edition@ + seq!['-'] + it.patch@,
                it.mcversion@,
                "https://bmclapi2.bangbang93.com/optifine/"@ + esc(it.mcversion@) + seq!['/']
                    + it.edition@ + seq!['/'] + it.patch@,
                Seq::empty(),
                contains_seq(it.forge@, "Forge N/A"@),
            ),
        )
    }
}

pub open spec fn optifine_items(items: Seq<OptifineItem>) -> Seq<LoaderView>
    decreases items.len(),
{
    if items.len() == 0 {
        Seq::empty()
    } else {
        let r = optifine_items(items.drop_last());
        match optifine_item(items.last()) {
            Some(v) => r.push(v),
            None => r,
        }
    }
}

/// The OptiFine entries of a BMCLAPI answer, in answer order.
pub fn optifine_results(items: &Vec<OptifineItem>) -> (r: Vec<ModLoaderResult>)
    ensures
        views(r@) == optifine_items(items@),
{
    let mut r: Vec<ModLoaderResult> = Vec::new();
    let prefix = chars_of("https://bmclapi2.bangbang93.com/optifine/");
    let na = chars_of("Forge N/A");
    let empty: Vec<char> = Vec::new();
    let mut i: usize = 0;
    proof {
        assert(items@.take(0) =~= Seq::<OptifineItem>::empty());
        assert(views(r@) =~= Seq::<LoaderView>::empty());
    }
    while i < items.len()
        invariant
            i <= items.len(),
            prefix@ == "https://bmclapi2.bangbang93.com/optifine/"@,
            na@ == "Forge N/A"@,
            empty@ == Seq::<char>::empty(),
            views(r@) == optifine_items(items@.take(i as int)),
        decreases items.len() - i,
    {
        proof {
            assert(items@.take(i + 1).drop_last() =~= items@.take(i as int));
            assert(items@.take(i + 1).last() == items@[i as int]);
        }
        let it = &items[i];
        let ghost before = r@;
        let mc = chars_of(it.mcversion.as_str());
        let ty = chars_of(it.edition.as_str());
        let patch = chars_of(it.patch.as_str());
        if mc.len() > 0 && ty.len() > 0 && patch.len() > 0 {
            let mut version = ty.clone();
            version.push('-');
            push_all(&mut version, patch.as_slice());
            let mut url = prefix.clone();
            push_all(&mut url, esc_chars(it.mcversion.as_str()).as_slice());
            url.push('/');
            push_all(&mut url, ty.as_slice());
            url.push('/');
            push_all(&mut url, patch.as_slice());
            let rec = contains_exec(chars_of(it.forge.as_str()).as_slice(), na.as_slice());
            let x = make_entry(ModLoaderType::OptiFine, version.as_slice(), mc.as_slice(), url.as_slice(), empty.as_slice(), rec);
            r.push(x);
            proof {
                assert(version@ =~= it.edition@ + seq!['-'] + it.patch@);
                assert(url@ =~= "https://bmclapi2.bangbang93.com/optifine/"@ + esc(it.mcversion@) + seq!['/'] + it.edition@ + seq!['/'] + it.patch@);
                assert(views(r@) =~= views(before).push(x@));
            }
        }
        i = i + 1;
    }
    proof {
        assert(items@.take(items.len() as int) =~= items@);
    }
    r
}

/// An entry of the BMCLAPI LiteLoader list (absent fields as empty text).
pub struct LiteloaderItem {
    pub mcversion: String,
    pub version: String,
    pub hash: String,
}

/// Entries with a version become recommended BMCLAPI downloads carrying their hash.
pub open spec fn liteloader_item(it: LiteloaderItem) -> Option<LoaderView> {
    if it.version@.len() == 0 {
        None
    } else {
        Some(
            entry(
                ModLoaderType::LiteLoader,
                it.version@,
                it.mcversion@,
                "https://bmclapi2.bangbang93.com/liteloader/download/?version="@ + esc(it.version@),
                it.hash@,
                true,
            ),
        )
    }
}

pub open spec fn liteloader_items(items: Seq<LiteloaderItem>) -> Seq<LoaderView>
    decreases items.len(),
{
    if items.len() == 0 {
        Seq::empty()
    } else {
        let r = liteloader_items(items.drop_last());
        match liteloader_item(items.last()) {
            Some(v) => r.push(v),
            None => r,
        }
    }
}

/// The LiteLoader entries of a BMCLAPI answer, in answer order.
pub fn liteloader_results(items: &Vec<LiteloaderItem>) -> (r: Vec<ModLoaderResult>)
    ensures
        views(r@) == liteloader_items(items@),
{
    let mut r: Vec<ModLoaderResult> = Vec::new();
    let prefix = chars_of("https://bmclapi2.bangbang93.com/liteloader/download/?version=");
    let mut i: usize = 0;
    proof {
        assert(items@.take(0) =~= Seq::<LiteloaderItem>::empty());
        assert(views(r@) =~= Seq::<LoaderView>::empty());
    }
    while i < items.len()
        invariant
            i <= items.len(),
            prefix@ == "https://bmclapi2.bangbang93.com/liteloader/download/?version="@,
            views(r@) == liteloader_items(items@.take(i as int)),
        decreases items.len() - i,
    {
        proof {
            assert(items@.take(i + 1).drop_last() =~= items@.take(i as int));
            assert(items@.take(i + 1).last() == items@[i as int]);
        }
        let it = &items[i];
        let ghost before = r@;
        let v = chars_of(it.version.as_str());
        if v.len() > 0 {
            let mut url = prefix.clone();
            push_all(&mut url, esc_chars(it.version.as_str()).as_slice());
            let x = make_entry(ModLoaderType::LiteLoader, v.as_slice(), chars_of(it.mcversion.as_str()).as_slice(), url.as_slice(), chars_of(it.hash.as_str()).as_slice(), true);
            r.push(x);
            proof {
                assert(views(r@) =~= views(before).push(x@));
            }
        }
        i = i + 1;
    }
    proof {
        assert(items@.take(items.len() as int) =~= items@);
    }
    r
}

/// An entry of the BMCLAPI NeoForge list (absent fields as empty text).
pub struct NeoForgeItem {
    pub version: String,
    pub mcversion: String,
}

/// Entries with both fields become BMCLAPI installer downloads, recommended unless the
/// version holds "-beta" or "-alpha".
pub open spec fn neoforge_bmcl_item(it: NeoForgeItem) -> Option<LoaderView> {
    if it.version@.len() == 0 || it.mcversion@.len() == 0 {
        None
    } else {
        Some(
            entry(
                ModLoaderType::NeoForge,
                it.version@,
                it.mcversion@,
                "https://bmclapi2.bangbang93.com/neoforge/version/"@ + esc(it.version@)
                    + "/download/installer.jar"@,
                Seq::empty(),
                !contains_seq(it.version@, "-beta"@) && !contains_seq(it.version@, "-alpha"@),
            ),
        )
    }
}

pub open spec fn neoforge_bmcl_items(items: Seq<NeoForgeItem>) -> Seq<LoaderView>
    decreases items.len(),
{
    if items.len() == 0 {
        Seq::empty()
    } else {
        let r = neoforge_bmcl_items(items.drop_last());
        match neoforge_bmcl_item(items.last()) {
            Some(v) => r.push(v),
            None => r,
        }
    }
}

fn neoforge_bmcl_results(items: &Vec<NeoForgeItem>) -> (r: Vec<ModLoaderResult>)
    ensures
        views(r@) == neoforge_bmcl_items(items@),
{
    let mut r: Vec<ModLoaderResult> = Vec::new();
    let prefix = chars_of("https://bmclapi2.bangbang93.com/neoforge/version/");
    let suffix = chars_of("/download/installer.jar");
    let beta = chars_of("-beta");
    let alpha = chars_of("-alpha");
    let empty: Vec<char> = Vec::new();
    let mut i: usize = 0;
    proof {
        assert(items@.take(0) =~= Seq::<NeoForgeItem>::empty());
        assert(views(r@) =~= Seq::<LoaderView>::empty());
    }
    while i < items.len()
        invariant
            i <= items.len(),
            prefix@ == "https://bmclapi2.bangbang93.com/neoforge/version/"@,
            suffix@ == "/download/installer.jar"@,
            beta@ == "-beta"@,
            alpha@ == "-alpha"@,
            empty@ == Seq::<char>::empty(),
            views(r@) == neoforge_bmcl_items(items@.take(i as int)),
        decreases items.len() - i,
    {
        proof {
            assert(items@.take(i + 1).drop_last() =~= items@.take(i as int));
            assert(items@.take(i + 1).last() == items@[i as int]);
        }
        let it = &items[i];
        let ghost before = r@;
        let v = chars_of(it.version.as_str());
        let mc = chars_of(it.mcversion.as_str());
        if v.len() > 0 && mc.len() > 0 {
            let mut url = prefix.clone();
            push_all(&mut url, esc_chars(it.version.as_str()).as_slice());
            push_all(&mut url, suffix.as_slice());
            let rec = !contains_exec(v.as_slice(), beta.as_slice()) && !contains_exec(v.as_slice(), alpha.as_slice());
            let x = make_entry(ModLoaderType::NeoForge, v.as_slice(), mc.as_slice(), url.as_slice(), empty.as_slice(), rec);
            r.push(x);
            proof {
                assert(views(r@) =~= views(before).push(x@));
            }
        }
        i = i + 1;
    }
    proof {
        assert(items@.take(items.len() as int) =~= items@);
    }
    r
}

/// The NeoForge versions of a BMCLAPI answer, one per version, newest first.
pub fn neoforge_bmcl_versions(items: &Vec<NeoForgeItem>) -> (r: Vec<ModLoaderResult>)
    ensures
        exists|u: Seq<ModLoaderResult>|
            views(u) == neoforge_bmcl_items(items@) && r@ == sort_desc(dedup_versions(u)),
{
    sort_and_deduplicate(neoforge_bmcl_results(items))
}


// ---------------------------------------------------------------------------
// NeoForge Maven, Cleanroom releases
// ---------------------------------------------------------------------------

pub open spec fn not_beta(v: Seq<char>) -> bool {
    !contains_seq(ascii_lower(v), "beta"@)
}

/// The old (`net.neoforged:forge`) versions, for Minecraft 1.20.1 only.
pub open spec fn neoforge_old_items(vs: Seq<Seq<char>>) -> Seq<LoaderView>
    decreases vs.len(),
{
    if vs.len() == 0 {
        Seq::empty()
    } else {
        let r = neoforge_old_items(vs.drop_last());
        let v = vs.last();
        if v.len() == 0 {
            r
        } else {
            r.push(
                entry(
                    ModLoaderType::NeoForge,
                    v,
                    "1.20.1"@,
                    "https://maven.neoforged.net/releases/net/neoforged/forge/"@ + v + "/forge-"@ + v
                        + "-installer.jar"@,
                    Seq::empty(),
                    not_beta(v),
                ),
            )
        }
    }
}

/// The new (`net.neoforged:neoforge`) versions whose Minecraft version can be told
/// and, when one is requested, matches it.
pub open spec fn neoforge_meta_items(vs: Seq<Seq<char>>, mc: Seq<char>) -> Seq<LoaderView>
    decreases vs.len(),
{
    if vs.len() == 0 {
        Seq::empty()
    } else {
        let r = neoforge_meta_items(vs.drop_last(), mc);
        let v = vs.last();
        let p = neoforge_mc_version(v);
        if v.len() == 0 || p.len() == 0 || (mc.len() > 0 && !matches_mc_trimmed(p, mc)) {
            r
        } else {
            r.push(
                entry(
                    ModLoaderType::NeoForge,
                    v,
                    p,
                    "https://maven.neoforged.net/releases/net/neoforged/neoforge/"@ + v + "/neoforge-"@
                        + v + "-installer.jar"@,
                    Seq::empty(),
                    not_beta(v),
                ),
            )
        }
    }
}

pub open spec fn opt_strings(v: Option<Vec<String>>) -> Seq<Seq<char>> {
    match v {
        Some(x) => x@.map_values(|s: String| s@),
        None => Seq::empty(),
    }
}

/// Entries of the NeoForge Maven answers, before de-duplication: the old list when
/// 1.20.1 is requested, then the new list.
pub open spec fn neoforge_official_items(old_versions: Option<Vec<String>>, meta_versions: Option<Vec<String>>, mc: Seq<char>) -> Seq<LoaderView> {
    (if matches_mc_trimmed("1.20.1"@, mc) {
        neoforge_old_items(opt_strings(old_versions))
    } else {
        Seq::empty()
    }) + neoforge_meta_items(opt_strings(meta_versions), mc)
}

fn not_beta_exec(v: &[char]) -> (r: bool)
    ensures
        r == not_beta(v@),
{
    !contains_exec(ascii_lower_exec(v).as_slice(), chars_of("beta").as_slice())
}

fn maven_installer_url(base: &str, v: &[char], mid: &str) -> (r: Vec<char>)
    ensures
        r@ == base@ + v@ + mid@ + v@ + "-installer.jar"@,
{
    let mut url = chars_of(base);
    push_all(&mut url, v);
    push_all(&mut url, chars_of(mid).as_slice());
    push_all(&mut url, v);
    push_all(&mut url, chars_of("-installer.jar").as_slice());
    url
}

/// The NeoForge versions of the Maven answers (the old and new version arrays, absent
/// ones as `None`), one per version, newest first.
pub fn neoforge_official_versions(old_versions: &Option<Vec<String>>, meta_versions: &Option<Vec<String>>, minecraft_version: &str) -> (r: Vec<ModLoaderResult>)
    ensures
        exists|u: Seq<ModLoaderResult>|
            views(u) == neoforge_official_items(*old_versions, *meta_versions, minecraft_version@)
                && r@ == sort_desc(dedup_versions(u)),
{
    let mut r: Vec<ModLoaderResult> = Vec::new();
    let empty: Vec<char> = Vec::new();
    let mc = chars_of(minecraft_version);
    proof {
        assert(views(r@) =~= Seq::<LoaderView>::empty());
    }
    if matches_minecraft_version_trimmed("1.20.1", minecraft_version) {
        match old_versions {
            Some(vs) => {
                let ghost all = opt_strings(*old_versions);
                let game = chars_of("1.20.1");
                let mut i: usize = 0;
                proof {
                    assert(all.take(0) =~= Seq::<Seq<char>>::empty());
                }
                while i < vs.len()
                    invariant
                        i <= vs.len(),
                        all == vs@.map_values(|s: String| s@),
                        game@ == "1.20.1"@,
                        empty@ == Seq::<char>::empty(),
                        views(r@) == neoforge_old_items(all.take(i as int)),
                    decreases vs.len() - i,
                {
                    proof {
                        assert(all.take(i + 1).drop_last() =~= all.take(i as int));
                        assert(all.take(i + 1).last() == vs@[i as int]@);
                    }
                    let v = chars_of(vs[i].as_str());
                    let ghost before = r@;
                    if v.len() > 0 {
                        let url = maven_installer_url("https://maven.neoforged.net/releases/net/neoforged/forge/", v.as_slice(), "/forge-");
                        let x = make_entry(ModLoaderType::NeoForge, v.as_slice(), game.as_slice(), url.as_slice(), empty.as_slice(), not_beta_exec(v.as_slice()));
                        r.push(x);
                        proof {
                            assert(views(r@) =~= views(before).push(x@));
                        }
                    }
                    i = i + 1;
                }
                proof {
                    assert(all.take(vs.len() as int) =~= all);
                }
            },
            None => {},
        }
    }
    let ghost first = views(r@);
    proof {
        assert(first == if matches_mc_trimmed("1.20.1"@, minecraft_version@) {
            neoforge_old_items(opt_strings(*old_versions))
        } else {
            Seq::empty()
        });
    }
    match meta_versions {
        Some(vs) => {
            let ghost all = opt_strings(*meta_versions);
            let mut i: usize = 0;
            proof {
                assert(all.take(0) =~= Seq::<Seq<char>>::empty());
                assert(views(r@) =~= first + neoforge_meta_items(all.take(0), minecraft_version@));
            }
            while i < vs.len()
                invariant
                    i <= vs.len(),
                    all == vs@.map_values(|s: String| s@),
                    empty@ == Seq::<char>::empty(),
                    mc@ == minecraft_version@,
                    views(r@) == first + neoforge_meta_items(all.take(i as int), minecraft_version@),
                decreases vs.len() - i,
            {
                proof {
                    assert(all.take(i + 1).drop_last() =~= all.take(i as int));
                    assert(all.take(i + 1).last() == vs@[i as int]@);
                }
                let v = chars_of(vs[i].as_str());
                let ghost before = r@;
                if v.len() > 0 {
                    let p = parse_neoforge_minecraft_version(vs[i].as_str());
                    if p.unicode_len() > 0 && (mc.len() == 0 || matches_minecraft_version_trimmed(p.as_str(), minecraft_version)) {
                        let url = maven_installer_url("https://maven.neoforged.net/releases/net/neoforged/neoforge/", v.as_slice(), "/neoforge-");
                        let x = make_entry(ModLoaderType::NeoForge, v.as_slice(), chars_of(p.as_str()).as_slice(), url.as_slice(), empty.as_slice(), not_beta_exec(v.as_slice()));
                        r.push(x);
                        proof {
                            assert(views(r@) =~= views(before).push(x@));
                        }
                    }
                }
                i = i + 1;
            }
            proof {
                assert(all.take(vs.len() as int) =~= all);
            }
        },
        None => {
            proof {
                assert(views(r@) =~= first + Seq::<LoaderView>::empty());
            }
        },
    }
    sort_and_deduplicate(r)
}

/// Cleanroom is offered for Minecraft 1.12.2 only.
pub fn cleanroom_supported(minecraft_version: &str) -> (r: bool)
    ensures
        r == eq_ignore_case(minecraft_version@, "1.12.2"@),
{
    eq_ignore_case_exec(chars_of(minecraft_version).as_slice(), chars_of("1.12.2").as_slice())
}

/// A release tag whose part before the first '-' parses as a version gives an installer
/// download for 1.12.2, recommended unless the tag says "alpha".
pub open spec fn cleanroom_item(tag: Seq<char>) -> Option<LoaderView> {
    if tag.len() == 0 || !version_parses(before_first(tag, '-')) {
        None
    } else {
        Some(
            entry(
                ModLoaderType::Cleanroom,
                tag,
                "1.12.2"@,
                "https://github.com/CleanroomMC/Cleanroom/releases/download/"@ + tag + "/cleanroom-"@
                    + tag + "-installer.jar"@,
                Seq::empty(),
                !contains_seq(ascii_lower(tag), "alpha"@),
            ),
        )
    }
}

pub open spec fn cleanroom_items(tags: Seq<Seq<char>>) -> Seq<LoaderView>
    decreases tags.len(),
{
    if tags.len() == 0 {
        Seq::empty()
    } else {
        let r = cleanroom_items(tags.drop_last());
        match cleanroom_item(tags.last()) {
            Some(v) => r.push(v),
            None => r,
        }
    }
}

/// The Cleanroom versions of the release tags, one per version, newest first.
pub fn cleanroom_versions(tags: &Vec<String>) -> (r: Vec<ModLoaderResult>)
    ensures
        exists|u: Seq<ModLoaderResult>|
            views(u) == cleanroom_items(tags@.map_values(|s: String| s@)) && r@ == sort_desc(
                dedup_versions(u),
            ),
{
    let ghost all = tags@.map_values(|s: String| s@);
    let mut r: Vec<ModLoaderResult> = Vec::new();
    let empty: Vec<char> = Vec::new();
    let game = chars_of("1.12.2");
    let mut i: usize = 0;
    proof {
        assert(all.take(0) =~= Seq::<Seq<char>>::empty());
        assert(views(r@) =~= Seq::<LoaderView>::empty());
    }
    while i < tags.len()
        invariant
            i <= tags.len(),
            all == tags@.map_values(|s: String| s@),
            game@ == "1.12.2"@,
            empty@ == Seq::<char>::empty(),
            views(r@) == cleanroom_items(all.take(i as int)),
        decreases tags.len() - i,
    {
        proof {
            assert(all.take(i + 1).drop_last() =~= all.take(i as int));
            assert(all.take(i + 1).last() == tags@[i as int]@);
        }
        let tag = chars_of(tags[i].as_str());
        let ghost before = r@;
        if tag.len() > 0 {
            let ver = before_first_exec(tag.as_slice(), '-');
            if version_try_parse(string_of(ver.as_slice()).as_str()) {
                let url = maven_installer_url("https://github.com/CleanroomMC/Cleanroom/releases/download/", tag.as_slice(), "/cleanroom-");
                let rec = !contains_exec(ascii_lower_exec(tag.as_slice()).as_slice(), chars_of("alpha").as_slice());
                let x = make_entry(ModLoaderType::Cleanroom, tag.as_slice(), game.as_slice(), url.as_slice(), empty.as_slice(), rec);
                r.push(x);
                proof {
                    assert(views(r@) =~= views(before).push(x@));
                }
            }
        }
        i = i + 1;
    }
    proof {
        assert(all.take(tags.len() as int) =~= all);
    }
    sort_and_deduplicate(r)
}

// ---------------------------------------------------------------------------
// Quilt's global loader list and the combined list
// ---------------------------------------------------------------------------

/// An entry of Quilt's global `/loader` answer: the game versions of its `hashed` and
/// `intermediary` objects (empty when absent) and its `loader` object.
pub struct QuiltGlobalItem {
    pub hashed_version: String,
    pub intermediary_version: String,
    pub loader: Option<LoaderEntry>,
}

/// The loader objects of the global entries whose hashed or intermediary game version
/// matches the requested one, in answer order.
pub open spec fn quilt_global_kept(items: Seq<QuiltGlobalItem>, mc: Seq<char>) -> Seq<Option<LoaderEntry>>
    decreases items.len(),
{
    if items.len() == 0 {
        Seq::empty()
    } else {
        let r = quilt_global_kept(items.drop_last(), mc);
        let it = items.last();
        if matches_mc(it.hashed_version@, mc) || matches_mc(it.intermediary_version@, mc) {
            r.push(it.loader)
        } else {
            r
        }
    }
}

/// Keeps the global Quilt entries made for the requested game version (under any of
/// its aliases).
pub fn quilt_global_entries(items: Vec<QuiltGlobalItem>, minecraft_version: &str) -> (r: Vec<Option<LoaderEntry>>)
    ensures
        r@ == quilt_global_kept(items@, minecraft_version@),
{
    let ghost all = items@;
    assert(all.len() == items.len());
    let mut rest = items;
    let mut kept: Vec<Option<LoaderEntry>> = Vec::new();
    let mut i: usize = 0;
    proof {
        assert(all.take(0) =~= Seq::<QuiltGlobalItem>::empty());
        assert(rest@ =~= all.skip(0));
    }
    while rest.len() > 0
        invariant
            all.len() <= usize::MAX,
            i + rest@.len() == all.len(),
            rest@ == all.skip(i as int),
            kept@ == quilt_global_kept(all.take(i as int), minecraft_version@),
        decreases rest@.len(),
    {
        let it = rest.remove(0);
        proof {
            assert(it == all[i as int]);
            assert(all.take(i + 1).drop_last() =~= all.take(i as int));
            assert(all.take(i + 1).last() == it);
            assert(rest@ =~= all.skip(i + 1));
        }
        if matches_minecraft_version(it.hashed_version.as_str(), minecraft_version)
            || matches_minecraft_version(it.intermediary_version.as_str(), minecraft_version) {
            kept.push(it.loader);
        }
        i = i + 1;
    }
    proof {
        assert(all.take(i as int) =~= all);
    }
    kept
}

fn append_all(dst: &mut Vec<ModLoaderResult>, src: Vec<ModLoaderResult>)
    ensures
        final(dst)@ == old(dst)@ + src@,
{
    let mut src = src;
    let ghost first = dst@;
    let ghost all = src@;
    assert(all.len() == src.len());
    let mut i: usize = 0;
    proof {
        assert(all.take(0) =~= Seq::<ModLoaderResult>::empty());
        assert(dst@ =~= first + all.take(0));
        assert(src@ =~= all.skip(0));
    }
    while src.len() > 0
        invariant
            all.len() <= usize::MAX,
            i + src@.len() == all.len(),
            src@ == all.skip(i as int),
            dst@ == first + all.take(i as int),
        decreases src@.len(),
    {
        let x = src.remove(0);
        proof {
            assert(x == all[i as int]);
            assert(all.take(i + 1) =~= all.take(i as int).push(x));
            assert(src@ =~= all.skip(i + 1));
        }
        dst.push(x);
        proof {
            assert(dst@ =~= first + all.take(i + 1));
        }
        i = i + 1;
    }
    proof {
        assert(all.take(i as int) =~= all);
    }
}

/// The answer for all loader kinds (`GetAvailableModLoaders` with `All`): the lists of
/// Forge, Fabric, NeoForge, OptiFine, LiteLoader, Quilt, Cleanroom, Legacy Fabric and
/// Babric, one after the other, then the stable sort from the newest version to the oldest.
pub fn all_mod_loaders(
    forge: Vec<ModLoaderResult>,
    fabric: Vec<ModLoaderResult>,
    neoforge: Vec<ModLoaderResult>,
    optifine: Vec<ModLoaderResult>,
    liteloader: Vec<ModLoaderResult>,
    quilt: Vec<ModLoaderResult>,
    cleanroom: Vec<ModLoaderResult>,
    legacy_fabric: Vec<ModLoaderResult>,
    babric: Vec<ModLoaderResult>,
) -> (r: Vec<ModLoaderResult>)
    ensures
        r@ == sort_desc(
            forge@ + fabric@ + neoforge@ + optifine@ + liteloader@ + quilt@ + cleanroom@
                + legacy_fabric@ + babric@,
        ),
{
    let ghost whole = forge@ + fabric@ + neoforge@ + optifine@ + liteloader@ + quilt@ + cleanroom@
        + legacy_fabric@ + babric@;
    let mut all: Vec<ModLoaderResult> = Vec::new();
    append_all(&mut all, forge);
    append_all(&mut all, fabric);
    append_all(&mut all, neoforge);
    append_all(&mut all, optifine);
    append_all(&mut all, liteloader);
    append_all(&mut all, quilt);
    append_all(&mut all, cleanroom);
    append_all(&mut all, legacy_fabric);
    append_all(&mut all, babric);
    assert(all@ =~= whole);
    sort_descending(all)
}

} // verus!
