//! The Forge-family installers (Forge, NeoForge, Cleanroom): their download settings
//! and the download targets of the libraries an installer lists.
use vstd::prelude::*;
use crate::text::{
    chars_of, contains_exec, contains_seq, eq_ignore_case, eq_ignore_case_exec, push_all, seq_eq,
    split_any, split_any_exec, string_of,
};
use crate::version::{to_lowercase, unicode_lowercase};
use crate::paths::{combined_path, path_combine, path_combine_chars, PathStyle};
use crate::maven::{check_libs_ver_static, newest_libs, LibInfo};
use crate::forge::{resolved_url, ForgeInstallerBase, SourcesList};
use crate::installer::{miss_file, miss_views, MissFileData, MissFileView};

verus! {

/// A library to fetch whose link may still have to be chosen: when `candidates` is not
/// empty, the first of them that answers is used, and the last when none does
/// (`file.url` is then that last one).
pub struct ProbeTarget {
    pub file: MissFileData,
    pub candidates: Vec<String>,
}

pub ghost struct ProbeView {
    pub file: MissFileView,
    pub candidates: Seq<Seq<char>>,
}

pub open spec fn probe_view(t: ProbeTarget) -> ProbeView {
    ProbeView { file: t.file@, candidates: t.candidates@.map_values(|s: String| s@) }
}

pub open spec fn probe_views(s: Seq<ProbeTarget>) -> Seq<ProbeView> {
    s.map_values(|t: ProbeTarget| probe_view(t))
}

/// `{game_dir}` combined with "libraries" and then with the library's path.
pub open spec fn lib_file_path(game_dir: Seq<char>, lib: LibInfo, style: PathStyle) -> Seq<char> {
    combined_path(combined_path(game_dir, "libraries"@, style), lib.path@, style)
}

/// `{name}-{version}.jar`.
pub open spec fn lib_jar_name(lib: LibInfo) -> Seq<char> {
    lib.name@ + seq!['-'] + lib.version@ + ".jar"@
}

/// Every repository of a `|`-separated list followed by `/` and the path.
pub open spec fn candidate_urls(bases: Seq<Seq<char>>, path: Seq<char>) -> Seq<Seq<char>> {
    bases.map_values(|b: Seq<char>| b + seq!['/'] + path)
}

/// Where a Forge or NeoForge library goes and comes from: its own link (through the
/// mirror mappings unless the source setting is 0); else, for a `|`-separated list of
/// repositories, the first that answers; else the repository followed by the path.
pub open spec fn forge_target(b: ForgeInstallerBase, lib: LibInfo) -> ProbeView {
    let file = |url: Seq<char>|
        MissFileView {
            name: lib_jar_name(lib),
            path: lib_file_path(b.game_dir@, lib, b.path_style),
            url,
            sha1: lib.hash@,
        };
    if lib.url@.len() > 0 {
        ProbeView {
            file: file(
                if b.source_id != 0 {
                    resolved_url(b.source_mappings@, lib.url@)
                } else {
                    lib.url@
                },
            ),
            candidates: Seq::empty(),
        }
    } else if contains_seq(b.base_url@, seq!['|']) {
        let c = candidate_urls(split_any(b.base_url@, seq!['|']), lib.path@);
        ProbeView { file: file(c.last()), candidates: c }
    } else {
        ProbeView { file: file(b.base_url@ + seq!['/'] + lib.path@), candidates: Seq::empty() }
    }
}

fn jar_name_exec(lib: &LibInfo) -> (r: Vec<char>)
    ensures
        r@ == lib_jar_name(*lib),
{
    let mut n = chars_of(lib.name.as_str());
    n.push('-');
    push_all(&mut n, chars_of(lib.version.as_str()).as_slice());
    push_all(&mut n, chars_of(".jar").as_slice());
    n
}

fn under_repo(base: &[char], path: &[char]) -> (r: Vec<char>)
    ensures
        r@ == base@ + seq!['/'] + path@,
{
    let mut u: Vec<char> = Vec::new();
    push_all(&mut u, base);
    u.push('/');
    push_all(&mut u, path);
    u
}

impl ForgeInstallerBase {
    /// The download targets of an installer's libraries: one per library name (the
    /// newest version of each, as `check_libs_ver_static` keeps them), in order.
    pub fn library_targets(&self, libs: Vec<LibInfo>) -> (r: Vec<ProbeTarget>)
        ensures
            probe_views(r@) == newest_libs(libs@).map_values(|l: LibInfo| forge_target(*self, l)),
    {
        let kept = check_libs_ver_static(libs);
        let lib_dir = path_combine_chars(chars_of(self.game_dir.as_str()).as_slice(), chars_of("libraries").as_slice(), self.path_style);
        let base = chars_of(self.base_url.as_str());
        let bar = chars_of("|");
        proof {
            reveal_strlit("|");
            assert(bar@ =~= seq!['|']);
        }
        let multi = contains_exec(base.as_slice(), bar.as_slice());
        let pieces = split_any_exec(base.as_slice(), bar.as_slice());
        let mut r: Vec<ProbeTarget> = Vec::new();
        let mut i: usize = 0;
        while i < kept.len()
            invariant
                i <= kept.len(),
                kept@ == newest_libs(libs@),
                lib_dir@ == combined_path(self.game_dir@, "libraries"@, self.path_style),
                base@ == self.base_url@,
                multi == contains_seq(self.base_url@, seq!['|']),
                pieces@.len() == split_any(self.base_url@, seq!['|']).len(),
                forall|k: int| 0 <= k < pieces@.len() ==> #[trigger] pieces@[k]@ == split_any(self.base_url@, seq!['|'])[k],
                r@.len() == i,
                forall|k: int| 0 <= k < i ==> #[trigger] probe_view(r@[k]) == forge_target(*self, kept@[k]),
            decreases kept.len() - i,
        {
            let lib = &kept[i];
            let name = jar_name_exec(lib);
            let path = path_combine_chars(lib_dir.as_slice(), chars_of(lib.path.as_str()).as_slice(), self.path_style);
            let lp = chars_of(lib.path.as_str());
            let own = chars_of(lib.url.as_str());
            let hash = chars_of(lib.hash.as_str());
            let t = if own.len() > 0 {
                let url = if self.source_id != 0 {
                    chars_of(self.resolve_url(lib.url.as_str()).as_str())
                } else {
                    own
                };
                ProbeTarget {
                    file: miss_file(name.as_slice(), path.as_slice(), url.as_slice(), hash.as_slice()),
                    candidates: Vec::new(),
                }
            } else if multi {
                let mut cands: Vec<String> = Vec::new();
                let mut j: usize = 0;
                let mut last: Vec<char> = Vec::new();
                while j < pieces.len()
                    invariant
                        j <= pieces.len(),
                        lp@ == lib.path@,
                        cands@.len() == j,
                        forall|k: int| 0 <= k < j ==> #[trigger] cands@[k]@ == pieces@[k]@ + seq!['/'] + lp@,
                        j > 0 ==> last@ == pieces@[j - 1]@ + seq!['/'] + lp@,
                    decreases pieces.len() - j,
                {
                    let u = under_repo(pieces[j].as_slice(), lp.as_slice());
                    cands.push(string_of(u.as_slice()));
                    last = u;
                    j = j + 1;
                }
                proof {
                    let c = candidate_urls(split_any(self.base_url@, seq!['|']), lib.path@);
                    assert(cands@.map_values(|s: String| s@) =~= c);
                    assert(pieces@.len() > 0) by {
                        lemma_split_nonempty(self.base_url@, seq!['|']);
                    }
                    assert(last@ == c.last());
                }
                ProbeTarget {
                    file: miss_file(name.as_slice(), path.as_slice(), last.as_slice(), hash.as_slice()),
                    candidates: cands,
                }
            } else {
                let url = under_repo(base.as_slice(), lp.as_slice());
                ProbeTarget {
                    file: miss_file(name.as_slice(), path.as_slice(), url.as_slice(), hash.as_slice()),
                    candidates: Vec::new(),
                }
            };
            proof {
                if t.candidates@.len() == 0 {
                    assert(t.candidates@.map_values(|s: String| s@) =~= Seq::<Seq<char>>::empty());
                }
            }
            r.push(t);
            i = i + 1;
        }
        proof {
            assert(probe_views(r@) =~= newest_libs(libs@).map_values(|l: LibInfo| forge_target(*self, l)));
        }
        r
    }
}

proof fn lemma_split_nonempty(s: Seq<char>, seps: Seq<char>)
    ensures
        split_any(s, seps).len() >= 1,
    decreases s.len(),
{
    if s.len() > 0 {
        lemma_split_nonempty(s.drop_last(), seps);
    }
}

/// The target with its link settled: the candidate the probe found answering (by its
/// position), else the target's own link.
pub fn settle_target(t: ProbeTarget, answered: Option<usize>) -> (r: MissFileData)
    ensures
        r@ == (match answered {
            Some(k) => if k < t.candidates@.len() {
                MissFileView { url: t.candidates@[k as int]@, ..t.file@ }
            } else {
                t.file@
            },
            None => t.file@,
        }),
{
    let ProbeTarget { file, candidates } = t;
    match answered {
        Some(k) => {
            if k < candidates.len() {
                let url = chars_of(candidates[k].as_str());
                miss_file(
                    chars_of(file.name.as_str()).as_slice(),
                    chars_of(file.path.as_str()).as_slice(),
                    url.as_slice(),
                    chars_of(file.sha1.as_str()).as_slice(),
                )
            } else {
                file
            }
        },
        None => file,
    }
}

/// The Forge installer: download source setting, repositories, game directory and
/// version, and the shared Forge state.
pub struct ForgeInstaller {
    pub source_id: i32,
    pub base_url: String,
    pub game_dir: String,
    pub game_version: String,
    pub base: ForgeInstallerBase,
}

pub open spec fn bmclapi_maven_root() -> Seq<char> {
    "https://bmclapi2.bangbang93.com/maven"@
}

fn mapping(original: &str, default: &str) -> (r: SourcesList)
    ensures
        r.original@ == original@,
        r.default@ == default@,
{
    SourcesList { original: String::from_str(original), default: String::from_str(default) }
}

fn empty_string() -> (r: String)
    ensures
        r@ == Seq::<char>::empty(),
{
    string_of(Vec::<char>::new().as_slice())
}

/// The mirror mappings of Forge under the BMCLAPI setting: Forge's Maven, its old
/// file host and Mojang's libraries all map to the BMCLAPI Maven.
pub open spec fn forge_mirror_maps(maps: Seq<SourcesList>) -> bool {
    &&& maps.len() == 3
    &&& maps[0].original@ == "https://maven.minecraftforge.net"@
    &&& maps[1].original@ == "https://files.minecraftforge.net/maven"@
    &&& maps[2].original@ == "https://libraries.minecraft.net"@
    &&& forall|k: int| 0 <= k < 3 ==> (#[trigger] maps[k]).default@ == bmclapi_maven_root()
}

impl ForgeInstaller {
    /// Setting 1 fetches from the BMCLAPI Maven with the three Forge mirror mappings;
    /// every other setting tries Forge's Maven, then Mojang's libraries.
    pub fn new(source_id: i32, game_dir: String, game_version: String, style: PathStyle) -> (r: ForgeInstaller)
        ensures
            r.source_id == source_id,
            r.base_url@ == (if source_id == 1 {
                bmclapi_maven_root()
            } else {
                "https://maven.minecraftforge.net|https://libraries.minecraft.net"@
            }),
            r.game_dir@ == game_dir@,
            r.game_version@ == game_version@,
            r.base.base_url@ == r.base_url@,
            r.base.source_id == source_id,
            r.base.game_dir@ == game_dir@,
            r.base.game_version@ == game_version@,
            r.base.installer_path@.len() == 0,
            r.base.main_jar_path@.len() == 0,
            r.base.path_style == style,
            source_id == 1 ==> forge_mirror_maps(r.base.source_mappings@),
            source_id != 1 ==> r.base.source_mappings@.len() == 0,
    {
        let mut maps: Vec<SourcesList> = Vec::new();
        let base_url = if source_id == 1 {
            let m = "https://bmclapi2.bangbang93.com/maven";
            maps.push(mapping("https://maven.minecraftforge.net", m));
            maps.push(mapping("https://files.minecraftforge.net/maven", m));
            maps.push(mapping("https://libraries.minecraft.net", m));
            String::from_str(m)
        } else {
            String::from_str("https://maven.minecraftforge.net|https://libraries.minecraft.net")
        };
        let base = ForgeInstallerBase {
            base_url: string_of(chars_of(base_url.as_str()).as_slice()),
            source_id,
            game_dir: string_of(chars_of(game_dir.as_str()).as_slice()),
            game_version: string_of(chars_of(game_version.as_str()).as_slice()),
            installer_path: empty_string(),
            main_jar_path: empty_string(),
            source_mappings: maps,
            path_style: style,
        };
        ForgeInstaller { source_id, base_url, game_dir, game_version, base }
    }
}

/// The NeoForge installer: the shared Forge state.
pub struct NeoForgeInstaller {
    pub base: ForgeInstallerBase,
}

impl NeoForgeInstaller {
    /// Setting 1 fetches from the BMCLAPI Maven, mapping NeoForge's two repositories
    /// onto it; every other setting tries NeoForge's Maven, then Mojang's libraries.
    pub fn new(source_id: i32, game_dir: String, game_version: String, style: PathStyle) -> (r: NeoForgeInstaller)
        ensures
            r.base.base_url@ == (if source_id == 1 {
                bmclapi_maven_root()
            } else {
                "https://maven.neoforged.net/releases|https://libraries.minecraft.net"@
            }),
            r.base.source_id == source_id,
            r.base.game_dir@ == game_dir@,
            r.base.game_version@ == game_version@,
            r.base.installer_path@.len() == 0,
            r.base.main_jar_path@.len() == 0,
            r.base.path_style == style,
            source_id == 1 ==> {
                let maps = r.base.source_mappings@;
                &&& maps.len() == 2
                &&& maps[0].original@ == "https://maven.neoforged.net/releases/net/neoforged/forge"@
                &&& maps[0].default@ == bmclapi_maven_root() + "/net/neoforged/forge"@
                &&& maps[1].original@ == "https://maven.neoforged.net/releases/net/neoforged/neoforge"@
                &&& maps[1].default@ == bmclapi_maven_root() + "/net/neoforged/neoforge"@
            },
            source_id != 1 ==> r.base.source_mappings@.len() == 0,
    {
        let mut maps: Vec<SourcesList> = Vec::new();
        let base_url = if source_id == 1 {
            let mut d1 = chars_of("https://bmclapi2.bangbang93.com/maven");
            push_all(&mut d1, chars_of("/net/neoforged/forge").as_slice());
            let mut d2 = chars_of("https://bmclapi2.bangbang93.com/maven");
            push_all(&mut d2, chars_of("/net/neoforged/neoforge").as_slice());
            maps.push(
                SourcesList {
                    original: String::from_str("https://maven.neoforged.net/releases/net/neoforged/forge"),
                    default: string_of(d1.as_slice()),
                },
            );
            maps.push(
                SourcesList {
                    original: String::from_str("https://maven.neoforged.net/releases/net/neoforged/neoforge"),
                    default: string_of(d2.as_slice()),
                },
            );
            String::from_str("https://bmclapi2.bangbang93.com/maven")
        } else {
            String::from_str("https://maven.neoforged.net/releases|https://libraries.minecraft.net")
        };
        NeoForgeInstaller {
            base: ForgeInstallerBase {
                base_url,
                source_id,
                game_dir,
                game_version,
                installer_path: empty_string(),
                main_jar_path: empty_string(),
                source_mappings: maps,
                path_style: style,
            },
        }
    }
}

/// The Cleanroom installer: download source setting and game directory.
pub struct CleanroomInstaller {
    pub source_id: i32,
    pub game_dir: String,
}

/// Where a Cleanroom library goes and comes from: its own link, else its path on the
/// BMCLAPI Maven (setting 1) or on Maven Central.
pub open spec fn cleanroom_target(game_dir: Seq<char>, source_id: i32, lib: LibInfo, style: PathStyle) -> MissFileView {
    MissFileView {
        name: lib_jar_name(lib),
        path: lib_file_path(game_dir, lib, style),
        url: if lib.url@.len() > 0 {
            lib.url@
        } else if source_id == 1 {
            "https://bmclapi2.bangbang93.com/maven/"@ + lib.path@
        } else {
            "https://repo.maven.apache.org/maven2/"@ + lib.path@
        },
        sha1: lib.hash@,
    }
}

impl CleanroomInstaller {
    pub fn new(source_id: i32, game_dir: String) -> (r: CleanroomInstaller)
        ensures
            r.source_id == source_id,
            r.game_dir@ == game_dir@,
    {
        CleanroomInstaller { source_id, game_dir }
    }

    /// The missing Cleanroom libraries, given the libraries of the installer's profile and
    /// version files (in that order): the download targets of the newest version of
    /// each library, in order.
    pub fn get_miss_cleanroom_libraries(&self, libs: Vec<LibInfo>, style: PathStyle) -> (r: Vec<MissFileData>)
        ensures
            miss_views(r@) == newest_libs(libs@).map_values(
                |l: LibInfo| cleanroom_target(self.game_dir@, self.source_id, l, style),
            ),
    {
        let kept = check_libs_ver_static(libs);
        let lib_dir = path_combine_chars(chars_of(self.game_dir.as_str()).as_slice(), chars_of("libraries").as_slice(), style);
        let mut r: Vec<MissFileData> = Vec::new();
        let mut i: usize = 0;
        while i < kept.len()
            invariant
                i <= kept.len(),
                kept@ == newest_libs(libs@),
                lib_dir@ == combined_path(self.game_dir@, "libraries"@, style),
                r@.len() == i,
                forall|k: int| 0 <= k < i ==> #[trigger] r@[k]@ == cleanroom_target(self.game_dir@, self.source_id, kept@[k], style),
            decreases kept.len() - i,
        {
            let lib = &kept[i];
            let name = jar_name_exec(lib);
            let path = path_combine_chars(lib_dir.as_slice(), chars_of(lib.path.as_str()).as_slice(), style);
            let own = chars_of(lib.url.as_str());
            let url = if own.len() > 0 {
                own
            } else {
                let mut u = if self.source_id == 1 {
                    chars_of("https://bmclapi2.bangbang93.com/maven/")
                } else {
                    chars_of("https://repo.maven.apache.org/maven2/")
                };
                push_all(&mut u, chars_of(lib.path.as_str()).as_slice());
                u
            };
            r.push(miss_file(name.as_slice(), path.as_slice(), url.as_slice(), chars_of(lib.hash.as_str()).as_slice()));
            i = i + 1;
        }
        proof {
            assert(miss_views(r@) =~= newest_libs(libs@).map_values(
                |l: LibInfo| cleanroom_target(self.game_dir@, self.source_id, l, style),
            ));
        }
        r
    }
}

/// An installer that is not for the loader it was given to.
#[derive(Debug, PartialEq, Eq)]
pub enum InstallerCheckError {
    WrongInstaller,
}

/// The profile name of an install profile: its `profile` text, or, when that is empty or
/// absent, `install.profileName` (empty when absent).
pub fn get_profile_name(profile: Option<String>, install_profile_name: Option<String>) -> (r: String)
    ensures
        r@ == (match profile {
            Some(p) => if p@.len() > 0 {
                p@
            } else {
                match install_profile_name {
                    Some(n) => n@,
                    None => Seq::empty(),
                }
            },
            None => match install_profile_name {
                Some(n) => n@,
                None => Seq::empty(),
            },
        }),
{
    let direct = match profile {
        Some(p) => p,
        None => String::new(),
    };
    if chars_of(direct.as_str()).len() == 0 {
        match install_profile_name {
            Some(n) => n,
            None => String::new(),
        }
    } else {
        direct
    }
}

/// `IsLegacyForgeInstaller`, given the profile name and the length of the `processors`
/// array (none when absent): a profile not named "forge" (ASCII case aside) is refused;
/// a Forge installer without processors is a legacy one.
pub fn is_legacy_forge_installer(profile_name: &str, processor_count: Option<usize>) -> (r: Result<bool, InstallerCheckError>)
    ensures
        !eq_ignore_case(profile_name@, "forge"@) ==> r == Err::<bool, InstallerCheckError>(InstallerCheckError::WrongInstaller),
        eq_ignore_case(profile_name@, "forge"@) ==> r == Ok::<bool, InstallerCheckError>(
            match processor_count {
                Some(n) => n == 0,
                None => true,
            },
        ),
{
    if !eq_ignore_case_exec(chars_of(profile_name).as_slice(), chars_of("forge").as_slice()) {
        return Err(InstallerCheckError::WrongInstaller);
    }
    match processor_count {
        Some(n) => Ok(n == 0),
        None => Ok(true),
    }
}

/// A NeoForge installer names its profile "neoforge" (any case); for game version 1.20.1
/// the older "forge" name is accepted too.
pub fn neoforge_profile_accepted(profile: Option<String>, game_version: &str) -> (r: bool)
    ensures
        r == (match profile {
            Some(p) => unicode_lowercase(p@) == "neoforge"@ || (game_version@ == "1.20.1"@ && unicode_lowercase(p@) == "forge"@),
            None => false,
        }),
{
    match profile {
        Some(p) => {
            let name = chars_of(to_lowercase(p.as_str()).as_str());
            seq_eq(name.as_slice(), chars_of("neoforge").as_slice()) || (seq_eq(chars_of(game_version).as_slice(), chars_of("1.20.1").as_slice())
                && seq_eq(name.as_slice(), chars_of("forge").as_slice()))
        },
        None => {
            proof {
                reveal_strlit("neoforge");
                reveal_strlit("forge");
            }
            false
        },
    }
}

impl ForgeInstaller {
    /// Where a Forge install puts `client.lzma`:
    /// `{game_dir}/libraries/net/minecraftforge/forge/{game_version}-{version_id}`.
    pub fn lzma_dir(&self, version_id: &str) -> (r: String)
        ensures
            r@ == combined_path(
                combined_path(
                    combined_path(
                        combined_path(combined_path(self.game_dir@, "libraries"@, self.base.path_style), "net"@, self.base.path_style),
                        "minecraftforge"@,
                        self.base.path_style,
                    ),
                    "forge"@,
                    self.base.path_style,
                ),
                self.game_version@ + seq!['-'] + version_id@,
                self.base.path_style,
            ),
    {
        let st = self.base.path_style;
        let a = path_combine(self.game_dir.as_str(), "libraries", st);
        let b = path_combine(a.as_str(), "net", st);
        let c = path_combine(b.as_str(), "minecraftforge", st);
        let d = path_combine(c.as_str(), "forge", st);
        let mut last = chars_of(self.game_version.as_str());
        last.push('-');
        push_all(&mut last, chars_of(version_id).as_slice());
        path_combine(d.as_str(), string_of(last.as_slice()).as_str(), st)
    }
}

impl NeoForgeInstaller {
    /// Where a NeoForge install puts `client.lzma`:
    /// `{game_dir}/libraries/net/neoforged/neoforge/{version_id}`.
    pub fn lzma_dir(&self, version_id: &str) -> (r: String)
        ensures
            r@ == combined_path(
                combined_path(
                    combined_path(
                        combined_path(combined_path(self.base.game_dir@, "libraries"@, self.base.path_style), "net"@, self.base.path_style),
                        "neoforged"@,
                        self.base.path_style,
                    ),
                    "neoforge"@,
                    self.base.path_style,
                ),
                version_id@,
                self.base.path_style,
            ),
    {
        let st = self.base.path_style;
        let a = path_combine(self.base.game_dir.as_str(), "libraries", st);
        let b = path_combine(a.as_str(), "net", st);
        let c = path_combine(b.as_str(), "neoforged", st);
        let d = path_combine(c.as_str(), "neoforge", st);
        path_combine(d.as_str(), version_id, st)
    }
}

/// The `data.BINPATCH.client` text: the path of `client.lzma` in the directory, in
/// double quotes.
pub fn binpatch_text(lzma_dir: &str, style: PathStyle) -> (r: String)
    ensures
        r@ == seq!['"'] + combined_path(lzma_dir@, "client.lzma"@, style) + seq!['"'],
{
    let mut t: Vec<char> = Vec::new();
    t.push('"');
    push_all(&mut t, chars_of(path_combine(lzma_dir, "client.lzma", style).as_str()).as_slice());
    t.push('"');
    string_of(t.as_slice())
}

} // verus!
