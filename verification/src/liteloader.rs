//! LiteLoader: the installer's download settings, the library list of a LiteLoader
//! version as the version index describes it, and the core library.
use vstd::prelude::*;
use crate::text::{chars_of, push_all, seq_eq, string_of, trim_end_char, trim_end_char_exec};
use crate::maven::{
    artifact_coord, has_coordinate, maven_path, maven_path_chars, parse_maven_coordinate,
    parsed_coordinate, Artifact, Library, LibraryDownloadInfo,
};
use crate::json::{
    items_view, jview, lemma_items_view, lemma_members_push, lemma_members_view, members_view, merge_members,
    merge_version_json, version_members, JsonMember, JsonModel, JsonValue, MemberModel,
};
use crate::libjson::{get_in, get_member, jget, member_of};

verus! {

/// The LiteLoader installer: where LiteLoader files come from, the download source
/// setting and the game directory.
pub struct LiteloaderInstaller {
    pub base_repo_url: String,
    pub source_id: i32,
    pub game_dir: String,
}

/// A LiteLoader version as the installer uses it.
pub struct LiteLoaderRemoteVersion {
    pub game_version: String,
    pub self_version: String,
    pub urls: Vec<String>,
    pub tweak_class: String,
    pub libraries: Vec<Library>,
    pub json: Option<String>,
}

/// A library object of a version in the LiteLoader index: its `name` and `url` texts.
#[derive(Debug)]
pub struct LiteLibEntry {
    pub name: Option<String>,
    pub url: Option<String>,
}

/// A version object of the index (`versions.{mc}.{snapshots|artefacts}.com.mumfrey:liteloader.*`):
/// its `version`, `file` and `tweakClass` texts and, when `libraries` is an array, its
/// entries (`None` for those that are not objects).
#[derive(Debug)]
pub struct LiteArtefact {
    pub version: Option<String>,
    pub file: Option<String>,
    pub tweak_class: Option<String>,
    pub libraries: Option<Vec<Option<LiteLibEntry>>>,
}

/// What a library entry carries, as text: its coordinate, its repository and, when it has
/// download information, the path and link given there.
pub ghost struct LibraryView {
    pub coord: Option<(Seq<char>, Seq<char>, Seq<char>)>,
    pub url: Option<Seq<char>>,
    pub download: Option<(Option<Seq<char>>, Option<Seq<char>>)>,
}

pub open spec fn opt_view(s: Option<String>) -> Option<Seq<char>> {
    match s {
        Some(t) => Some(t@),
        None => None,
    }
}

pub open spec fn library_view(l: Library) -> LibraryView {
    LibraryView {
        coord: match l.artifact {
            Some(a) => Some((a.group_id@, a.artifact_id@, a.version@)),
            None => None,
        },
        url: opt_view(l.url),
        download: match l.download_info {
            Some(d) => Some((opt_view(d.path), opt_view(d.url))),
            None => None,
        },
    }
}

pub open spec fn library_views(s: Seq<Library>) -> Seq<LibraryView> {
    s.map_values(|l: Library| library_view(l))
}

pub open spec fn bmclapi_maven() -> Seq<char> {
    "https://bmclapi2.bangbang93.com/maven/"@
}

pub open spec fn official_versions() -> Seq<char> {
    "https://dl.liteloader.com/versions"@
}

/// `"{base without trailing slashes}/{path}"`.
pub open spec fn under(base: Seq<char>, path: Seq<char>) -> Seq<char> {
    trim_end_char(base, '/') + seq!['/'] + path
}

/// The repository a library entry names: a missing or empty `url` under the official
/// source (setting 0) means SpongePowered's Maven; otherwise its `url`, or the
/// installer's repository when it has none.
pub open spec fn lite_lib_url(e: LiteLibEntry, base: Seq<char>, source_id: i32) -> Seq<char> {
    if source_id == 0 && (e.url is None || e.url->0@.len() == 0) {
        "https://repo.spongepowered.org/maven"@
    } else {
        match e.url {
            Some(u) => u@,
            None => base,
        }
    }
}

/// The library of an entry with a non-empty name whose Maven path is not empty.
pub open spec fn lite_library(e: Option<LiteLibEntry>, base: Seq<char>, source_id: i32) -> Option<LibraryView> {
    match e {
        None => None,
        Some(x) => match x.name {
            None => None,
            Some(n) => if n@.len() == 0 || maven_path(n@).len() == 0 {
                None
            } else {
                let u = lite_lib_url(x, base, source_id);
                Some(
                    LibraryView {
                        coord: parsed_coordinate(n@),
                        url: Some(u),
                        download: Some((Some(maven_path(n@)), Some(under(u, maven_path(n@))))),
                    },
                )
            },
        },
    }
}

pub open spec fn lite_libraries(es: Seq<Option<LiteLibEntry>>, base: Seq<char>, source_id: i32) -> Seq<LibraryView>
    decreases es.len(),
{
    if es.len() == 0 {
        Seq::empty()
    } else {
        let r = lite_libraries(es.drop_last(), base, source_id);
        match lite_library(es.last(), base, source_id) {
            Some(v) => r.push(v),
            None => r,
        }
    }
}

/// Position of the first version object whose `version` is `lite`, or -1.
pub open spec fn artefact_index(arts: Seq<Option<LiteArtefact>>, lite: Seq<char>) -> int
    decreases arts.len(),
{
    if arts.len() == 0 {
        -1
    } else {
        let i = artefact_index(arts.drop_last(), lite);
        if i >= 0 {
            i
        } else if arts.last() is Some && arts.last()->0.version is Some
            && arts.last()->0.version->0@ == lite {
            arts.len() - 1
        } else {
            -1
        }
    }
}

pub open spec fn default_tweak_class() -> Seq<char> {
    "com.mumfrey.liteloader.launch.LiteLoaderTweaker"@
}

/// The base libraries, followed by the core library unless its
/// coordinate is already among them (a core library without coordinate is always added).
pub open spec fn merged_libraries(base: Seq<Library>, core: Library) -> Seq<Library> {
    if core.artifact is Some && has_coordinate(base, artifact_coord(core.artifact->0)) {
        base
    } else {
        base.push(core)
    }
}

/// Merging the core library is done once: afterwards its coordinate is among the
/// libraries, and merging it again changes nothing.
pub proof fn lemma_merge_libraries_once(base: Seq<Library>, core: Library)
    requires
        core.artifact is Some,
    ensures
        has_coordinate(merged_libraries(base, core), artifact_coord(core.artifact->0)),
        merged_libraries(merged_libraries(base, core), core) == merged_libraries(base, core),
{
    let m = merged_libraries(base, core);
    let c = artifact_coord(core.artifact->0);
    if has_coordinate(base, c) {
        let i = choose|i: int| 0 <= i < base.len() && (#[trigger] base[i]).artifact is Some && artifact_coord(base[i].artifact->0) == c;
        assert(m[i] == base[i]);
    } else {
        assert(m[base.len() as int] == core);
    }
}

impl LiteloaderInstaller {
    /// Download source setting 1 takes LiteLoader files from the BMCLAPI Maven mirror,
    /// every other setting from dl.liteloader.com.
    pub fn new(source_id: i32, game_dir: String, game_version: String) -> (r: LiteloaderInstaller)
        ensures
            r.base_repo_url@ == (if source_id == 1 {
                bmclapi_maven()
            } else {
                official_versions()
            }),
            r.source_id == source_id,
            r.game_dir@ == game_dir@,
    {
        let base_repo_url = if source_id == 1 {
            String::from_str("https://bmclapi2.bangbang93.com/maven/")
        } else {
            String::from_str("https://dl.liteloader.com/versions")
        };
        LiteloaderInstaller { base_repo_url, source_id, game_dir }
    }

    /// The remote LiteLoader version, given the version objects listed for the game
    /// version: the first whose `version` is `lite_version` must name a non-empty `file`;
    /// the version then carries its jar link, its libraries and its tweak class (the
    /// standard LiteLoader tweaker when it names none).
    pub fn remote_version_from_versions(
        &self,
        mc_version: &str,
        lite_version: &str,
        artefacts: &Vec<Option<LiteArtefact>>,
    ) -> (r: Option<LiteLoaderRemoteVersion>)
        ensures
            ({
                let k = artefact_index(artefacts@, lite_version@);
                match r {
                    None => k < 0 || artefacts@[k]->0.file is None || artefacts@[k]->0.file->0@.len() == 0,
                    Some(v) => {
                        let t = artefacts@[k]->0;
                        &&& k >= 0
                        &&& t.file is Some && t.file->0@.len() > 0
                        &&& v.game_version@ == mc_version@
                        &&& v.self_version@ == lite_version@
                        &&& v.urls@.len() == 1
                        &&& v.urls@[0]@ == under(self.base_repo_url@, "com/mumfrey/liteloader/"@ + lite_version@ + seq!['/'] + t.file->0@)
                        &&& v.tweak_class@ == (match t.tweak_class {
                            Some(c) => c@,
                            None => default_tweak_class(),
                        })
                        &&& library_views(v.libraries@) == (match t.libraries {
                            Some(es) => lite_libraries(es@, self.base_repo_url@, self.source_id),
                            None => Seq::empty(),
                        })
                        &&& v.json is None
                    },
                }
            }),
    {
        let lite = chars_of(lite_version);
        let mut k: usize = 0;
        let mut found: Option<usize> = None;
        while k < artefacts.len()
            invariant
                k <= artefacts.len(),
                lite@ == lite_version@,
                found is None ==> artefact_index(artefacts@.take(k as int), lite_version@) == -1,
                found is Some ==> found->0 < artefacts.len() && artefact_index(artefacts@, lite_version@) == found->0,
            decreases artefacts.len() - k,
        {
            proof {
                assert(artefacts@.take(k + 1).drop_last() =~= artefacts@.take(k as int));
                assert(artefacts@.take(k + 1).last() == artefacts@[k as int]);
            }
            if found.is_none() {
                let hit = match &artefacts[k] {
                    Some(a) => match &a.version {
                        Some(v) => seq_eq(chars_of(v.as_str()).as_slice(), lite.as_slice()),
                        None => false,
                    },
                    None => false,
                };
                if hit {
                    proof {
                        lemma_artefact_index_prefix(artefacts@, lite_version@, k as int);
                    }
                    found = Some(k);
                }
            }
            k = k + 1;
        }
        proof {
            assert(artefacts@.take(artefacts.len() as int) =~= artefacts@);
        }
        let idx = match found {
            Some(i) => i,
            None => {
                return None;
            },
        };
        proof {
            lemma_artefact_index_found(artefacts@, lite_version@);
        }
        let target = match &artefacts[idx] {
            Some(t) => t,
            None => {
                return None;
            },
        };
        let file = match &target.file {
            Some(f) => chars_of(f.as_str()),
            None => {
                return None;
            },
        };
        if file.len() == 0 {
            return None;
        }
        let base = trim_end_char_exec(chars_of(self.base_repo_url.as_str()).as_slice(), '/');
        let mut main_url = base.clone();
        main_url.push('/');
        push_all(&mut main_url, chars_of("com/mumfrey/liteloader/").as_slice());
        push_all(&mut main_url, lite.as_slice());
        main_url.push('/');
        push_all(&mut main_url, file.as_slice());
        proof {
            reveal_strlit("com/mumfrey/liteloader/");
            assert(main_url@ =~= under(self.base_repo_url@, "com/mumfrey/liteloader/"@ + lite_version@ + seq!['/'] + file@));
        }
        let mut urls: Vec<String> = Vec::new();
        urls.push(string_of(main_url.as_slice()));
        let libraries = match &target.libraries {
            Some(es) => self.lite_library_list(es),
            None => Vec::new(),
        };
        proof {
            if target.libraries is None {
                assert(library_views(libraries@) =~= Seq::<LibraryView>::empty());
            }
        }
        let tweak_class = match &target.tweak_class {
            Some(c) => string_of(chars_of(c.as_str()).as_slice()),
            None => String::from_str("com.mumfrey.liteloader.launch.LiteLoaderTweaker"),
        };
        Some(
            LiteLoaderRemoteVersion {
                game_version: string_of(chars_of(mc_version).as_slice()),
                self_version: string_of(lite.as_slice()),
                urls,
                tweak_class,
                libraries,
                json: None,
            },
        )
    }

    fn lite_library_list(&self, es: &Vec<Option<LiteLibEntry>>) -> (r: Vec<Library>)
        ensures
            library_views(r@) == lite_libraries(es@, self.base_repo_url@, self.source_id),
    {
        let mut r: Vec<Library> = Vec::new();
        let mut i: usize = 0;
        proof {
            assert(es@.take(0) =~= Seq::<Option<LiteLibEntry>>::empty());
            assert(library_views(r@) =~= Seq::<LibraryView>::empty());
        }
        while i < es.len()
            invariant
                i <= es.len(),
                library_views(r@) == lite_libraries(es@.take(i as int), self.base_repo_url@, self.source_id),
            decreases es.len() - i,
        {
            proof {
                assert(es@.take(i + 1).drop_last() =~= es@.take(i as int));
                assert(es@.take(i + 1).last() == es@[i as int]);
            }
            let ghost before = r@;
            let ghost cur = es@[i as int];
            match &es[i] {
                None => {
                    assert(lite_library(cur, self.base_repo_url@, self.source_id) is None);
                },
                Some(e) => match &e.name {
                    None => {
                        assert(lite_library(cur, self.base_repo_url@, self.source_id) is None);
                    },
                    Some(n) => {
                        let name = chars_of(n.as_str());
                        let mp = maven_path_chars(name.as_slice());
                        if name.len() > 0 && mp.len() > 0 {
                            let lib_url = match &e.url {
                                Some(u) => {
                                    let uc = chars_of(u.as_str());
                                    if self.source_id == 0 && uc.len() == 0 {
                                        chars_of("https://repo.spongepowered.org/maven")
                                    } else {
                                        uc
                                    }
                                },
                                None => if self.source_id == 0 {
                                    chars_of("https://repo.spongepowered.org/maven")
                                } else {
                                    chars_of(self.base_repo_url.as_str())
                                },
                            };
                            assert(lib_url@ == lite_lib_url(*e, self.base_repo_url@, self.source_id));
                            let mut dl = trim_end_char_exec(lib_url.as_slice(), '/');
                            dl.push('/');
                            push_all(&mut dl, mp.as_slice());
                            let x = Library {
                                artifact: parse_maven_coordinate(n.as_str()),
                                url: Some(string_of(lib_url.as_slice())),
                                download_info: Some(
                                    LibraryDownloadInfo {
                                        path: Some(string_of(mp.as_slice())),
                                        url: Some(string_of(dl.as_slice())),
                                    },
                                ),
                            };
                            r.push(x);
                            proof {
                                assert(dl@ =~= under(lib_url@, mp@));
                                assert(library_view(x).coord == parsed_coordinate(n@));
                                assert(lite_library(cur, self.base_repo_url@, self.source_id) == Some(library_view(x)));
                                assert(library_views(r@) =~= library_views(before).push(library_view(x)));
                            }
                        } else {
                            assert(lite_library(cur, self.base_repo_url@, self.source_id) is None);
                        }
                    },
                },
            }
            i = i + 1;
        }
        proof {
            assert(es@.take(es.len() as int) =~= es@);
        }
        r
    }

    /// The library `com.mumfrey:liteloader:{version}` at its Maven
    /// path (or the conventional jar path should that be empty), fetched from the
    /// version's first link, else from that path under the installer's repository.
    pub fn create_core_library(&self, remote_version: &LiteLoaderRemoteVersion) -> (r: Library)
        ensures
            ({
                let v = remote_version.self_version@;
                let mp0 = maven_path("com.mumfrey:liteloader:"@ + v);
                let mp = if mp0.len() == 0 {
                    "com/mumfrey/liteloader/"@ + v + "/liteloader-"@ + v + ".jar"@
                } else {
                    mp0
                };
                library_view(r) == LibraryView {
                    coord: Some(("com.mumfrey"@, "liteloader"@, v)),
                    url: Some(self.base_repo_url@),
                    download: Some(
                        (
                            Some(mp),
                            Some(
                                if remote_version.urls@.len() > 0 {
                                    remote_version.urls@[0]@
                                } else {
                                    under(self.base_repo_url@, mp)
                                },
                            ),
                        ),
                    ),
                }
            }),
    {
        let v = chars_of(remote_version.self_version.as_str());
        let mut coord = chars_of("com.mumfrey:liteloader:");
        push_all(&mut coord, v.as_slice());
        let mp0 = maven_path_chars(coord.as_slice());
        let mp = if mp0.len() == 0 {
            let mut p = chars_of("com/mumfrey/liteloader/");
            push_all(&mut p, v.as_slice());
            push_all(&mut p, chars_of("/liteloader-").as_slice());
            push_all(&mut p, v.as_slice());
            push_all(&mut p, chars_of(".jar").as_slice());
            p
        } else {
            mp0
        };
        let download_url = if remote_version.urls.len() > 0 {
            let first = &remote_version.urls[0];
            assert(first@ == remote_version.urls@[0]@);
            string_of(chars_of(first.as_str()).as_slice())
        } else {
            let mut d = trim_end_char_exec(chars_of(self.base_repo_url.as_str()).as_slice(), '/');
            d.push('/');
            push_all(&mut d, mp.as_slice());
            assert(d@ =~= under(self.base_repo_url@, mp@));
            string_of(d.as_slice())
        };
        Library {
            artifact: Some(
                Artifact {
                    group_id: String::from_str("com.mumfrey"),
                    artifact_id: String::from_str("liteloader"),
                    version: string_of(v.as_slice()),
                },
            ),
            url: Some(string_of(chars_of(self.base_repo_url.as_str()).as_slice())),
            download_info: Some(
                LibraryDownloadInfo { path: Some(string_of(mp.as_slice())), url: Some(download_url) },
            ),
        }
    }

    /// The base libraries, followed by the core library unless its
    /// coordinate is already among them (a core library without coordinate is always added).
    pub fn merge_libraries(base_libraries: Vec<Library>, core_library: Library) -> (r: Vec<Library>)
        ensures
            r@ == merged_libraries(base_libraries@, core_library),
    {
        let mut result = base_libraries;
        let exists = match &core_library.artifact {
            None => false,
            Some(core) => {
                let coord = core.to_coordinate();
                let cc = chars_of(coord.as_str());
                let mut found = false;
                let mut i: usize = 0;
                while i < result.len()
                    invariant
                        i <= result.len(),
                        cc@ == artifact_coord(*core),
                        found == exists|k: int|
                            0 <= k < i && (#[trigger] result@[k]).artifact is Some && artifact_coord(
                                result@[k].artifact->0,
                            ) == cc@,
                    decreases result.len() - i,
                {
                    match &result[i].artifact {
                        Some(a) => {
                            let ac = a.to_coordinate();
                            if seq_eq(chars_of(ac.as_str()).as_slice(), cc.as_slice()) {
                                found = true;
                            }
                        },
                        None => {},
                    }
                    i = i + 1;
                }
                found
            },
        };
        if !exists {
            result.push(core_library);
        }
        result
    }
}

proof fn lemma_artefact_index_found(arts: Seq<Option<LiteArtefact>>, lite: Seq<char>)
    ensures
        artefact_index(arts, lite) >= 0 ==> {
            let k = artefact_index(arts, lite);
            &&& k < arts.len()
            &&& arts[k] is Some
            &&& arts[k]->0.version is Some
            &&& arts[k]->0.version->0@ == lite
        },
    decreases arts.len(),
{
    if arts.len() > 0 {
        lemma_artefact_index_found(arts.drop_last(), lite);
        let i = artefact_index(arts.drop_last(), lite);
        if i >= 0 {
            assert(arts.drop_last()[i] == arts[i]);
        }
    }
}

proof fn lemma_artefact_index_prefix(arts: Seq<Option<LiteArtefact>>, lite: Seq<char>, k: int)
    requires
        0 <= k < arts.len(),
        artefact_index(arts.take(k), lite) == -1,
        arts[k] is Some && arts[k]->0.version is Some && arts[k]->0.version->0@ == lite,
    ensures
        artefact_index(arts, lite) == k,
    decreases arts.len() - k,
{
    if k == arts.len() - 1 {
        assert(arts.drop_last() =~= arts.take(k));
    } else {
        assert(arts.drop_last().take(k) =~= arts.take(k));
        assert(arts.drop_last()[k] == arts[k]);
        lemma_artefact_index_prefix(arts.drop_last(), lite, k);
    }
}


// ---------------------------------------------------------------------------
// The version file
// ---------------------------------------------------------------------------

pub open spec fn text_or_null(s: Option<String>) -> JsonModel {
    match s {
        Some(t) => JsonModel::Str(t@),
        None => JsonModel::Null,
    }
}

/// A library as an entry of the version file's `libraries`: its `name` (null without a
/// coordinate), its `url` when it has a non-empty one, and `downloads.artifact` with the
/// download `path` and `url` when it has download information.
pub open spec fn library_node(l: Library) -> JsonModel {
    let name = MemberModel {
        key: "name"@,
        value: match l.artifact {
            Some(a) => JsonModel::Str(artifact_coord(a)),
            None => JsonModel::Null,
        },
    };
    let with_url = match l.url {
        Some(u) => if u@.len() > 0 {
            seq![name, MemberModel { key: "url"@, value: JsonModel::Str(u@) }]
        } else {
            seq![name]
        },
        None => seq![name],
    };
    JsonModel::Object(match l.download_info {
        Some(d) => with_url.push(
            MemberModel {
                key: "downloads"@,
                value: JsonModel::Object(
                    seq![
                        MemberModel {
                            key: "artifact"@,
                            value: JsonModel::Object(
                                seq![
                                    MemberModel { key: "path"@, value: text_or_null(d.path) },
                                    MemberModel { key: "url"@, value: text_or_null(d.url) },
                                ],
                            ),
                        },
                    ],
                ),
            },
        ),
        None => with_url,
    })
}

fn text_or_null_exec(s: &Option<String>) -> (r: JsonValue)
    ensures
        jview(r) == text_or_null(*s),
{
    match s {
        Some(t) => JsonValue::Str(string_of(chars_of(t.as_str()).as_slice())),
        None => JsonValue::Null,
    }
}

fn object_of(ms: Vec<JsonMember>) -> (r: JsonValue)
    ensures
        jview(r) == JsonModel::Object(members_view(ms@)),
{
    JsonValue::Object(ms)
}

fn member(key: &str, value: JsonValue) -> (r: JsonMember)
    ensures
        r.key@ == key@,
        r.value == value,
{
    JsonMember { key: String::from_str(key), value }
}

/// A library as an entry of the version file (see `library_node`).
pub fn library_to_json(lib: &Library) -> (r: JsonValue)
    ensures
        jview(r) == library_node(*lib),
{
    let name = match &lib.artifact {
        Some(a) => JsonValue::Str(a.to_coordinate()),
        None => JsonValue::Null,
    };
    let ghost expected = match library_node(*lib) {
        JsonModel::Object(x) => x,
        _ => Seq::empty(),
    };
    let mut ms: Vec<JsonMember> = Vec::new();
    let m = member("name", name);
    proof {
        lemma_members_push(ms@, m);
    }
    ms.push(m);
    match &lib.url {
        Some(u) => {
            if chars_of(u.as_str()).len() > 0 {
                let m = member("url", JsonValue::Str(string_of(chars_of(u.as_str()).as_slice())));
                proof {
                    lemma_members_push(ms@, m);
                }
                ms.push(m);
            }
        },
        None => {},
    }
    match &lib.download_info {
        Some(d) => {
            let mut art: Vec<JsonMember> = Vec::new();
            art.push(member("path", text_or_null_exec(&d.path)));
            art.push(member("url", text_or_null_exec(&d.url)));
            proof {
                lemma_members_view(art@);
                assert(members_view(art@) =~= seq![
                    MemberModel { key: "path"@, value: text_or_null(d.path) },
                    MemberModel { key: "url"@, value: text_or_null(d.url) },
                ]);
            }
            let mut dl: Vec<JsonMember> = Vec::new();
            dl.push(member("artifact", object_of(art)));
            proof {
                lemma_members_view(dl@);
                assert(members_view(dl@) =~= seq![
                    MemberModel {
                        key: "artifact"@,
                        value: JsonModel::Object(
                            seq![
                                MemberModel { key: "path"@, value: text_or_null(d.path) },
                                MemberModel { key: "url"@, value: text_or_null(d.url) },
                            ],
                        ),
                    },
                ]);
            }
            let m = member("downloads", object_of(dl));
            proof {
                lemma_members_push(ms@, m);
            }
            ms.push(m);
        },
        None => {},
    }
    proof {
        assert(members_view(ms@) =~= expected);
    }
    JsonValue::Object(ms)
}

pub open spec fn nodes_of(libs: Seq<Library>) -> Seq<JsonModel> {
    libs.map_values(|l: Library| library_node(l))
}

/// The LiteLoader part of a version file: named after the install, inheriting the
/// game version, launched through LaunchWrapper with LiteLoader's tweaker, listing the
/// libraries, with an empty `logging`.
pub open spec fn lite_version_node(version_id: Seq<char>, game_version: Seq<char>, tweak_class: Seq<char>, libs: Seq<Library>) -> JsonModel {
    JsonModel::Object(
        seq![
            MemberModel { key: "id"@, value: JsonModel::Str(version_id) },
            MemberModel { key: "inheritsFrom"@, value: JsonModel::Str(game_version) },
            MemberModel { key: "type"@, value: JsonModel::Str("release"@) },
            MemberModel {
                key: "arguments"@,
                value: JsonModel::Object(
                    seq![
                        MemberModel {
                            key: "game"@,
                            value: JsonModel::Array(seq![JsonModel::Str("--tweakClass"@), JsonModel::Str(tweak_class)]),
                        },
                    ],
                ),
            },
            MemberModel { key: "mainClass"@, value: JsonModel::Str("net.minecraft.launchwrapper.Launch"@) },
            MemberModel { key: "libraries"@, value: JsonModel::Array(nodes_of(libs)) },
            MemberModel { key: "logging"@, value: JsonModel::Object(Seq::empty()) },
        ],
    )
}

/// The LiteLoader part of a version file (see `lite_version_node`).
pub fn lite_version_json(version_id: &str, game_version: &str, tweak_class: &str, libraries: &Vec<Library>) -> (r: JsonValue)
    ensures
        jview(r) == lite_version_node(version_id@, game_version@, tweak_class@, libraries@),
{
    let mut nodes: Vec<JsonValue> = Vec::new();
    let mut i: usize = 0;
    while i < libraries.len()
        invariant
            i <= libraries.len(),
            items_view(nodes@) == nodes_of(libraries@.take(i as int)),
        decreases libraries.len() - i,
    {
        let n = library_to_json(&libraries[i]);
        let ghost before = nodes@;
        nodes.push(n);
        proof {
            assert(nodes@.drop_last() =~= before);
            assert(nodes_of(libraries@.take(i + 1)) =~= nodes_of(libraries@.take(i as int)).push(library_node(libraries@[i as int])));
        }
        i = i + 1;
    }
    proof {
        assert(libraries@.take(libraries.len() as int) =~= libraries@);
    }
    let mut game: Vec<JsonValue> = Vec::new();
    game.push(JsonValue::Str(String::from_str("--tweakClass")));
    game.push(JsonValue::Str(string_of(chars_of(tweak_class).as_slice())));
    proof {
        lemma_items_view(game@);
        assert(items_view(game@) =~= seq![JsonModel::Str("--tweakClass"@), JsonModel::Str(tweak_class@)]);
    }
    let mut args: Vec<JsonMember> = Vec::new();
    args.push(member("game", JsonValue::Array(game)));
    proof {
        lemma_members_view(args@);
        assert(members_view(args@) =~= seq![
            MemberModel {
                key: "game"@,
                value: JsonModel::Array(seq![JsonModel::Str("--tweakClass"@), JsonModel::Str(tweak_class@)]),
            },
        ]);
    }
    let mut ms: Vec<JsonMember> = Vec::new();
    ms.push(member("id", JsonValue::Str(string_of(chars_of(version_id).as_slice()))));
    ms.push(member("inheritsFrom", JsonValue::Str(string_of(chars_of(game_version).as_slice()))));
    ms.push(member("type", JsonValue::Str(String::from_str("release"))));
    ms.push(member("arguments", object_of(args)));
    ms.push(member("mainClass", JsonValue::Str(String::from_str("net.minecraft.launchwrapper.Launch"))));
    ms.push(member("libraries", JsonValue::Array(nodes)));
    ms.push(member("logging", object_of(Vec::new())));
    proof {
        lemma_members_view(ms@);
        assert(members_view(Seq::<JsonMember>::empty()) =~= Seq::<MemberModel>::empty());
        assert(members_view(ms@) =~= match lite_version_node(version_id@, game_version@, tweak_class@, libraries@) {
            JsonModel::Object(x) => x,
            _ => Seq::empty(),
        });
    }
    JsonValue::Object(ms)
}

impl LiteloaderInstaller {
    /// The base version's file (`{}` when it has none) merged with the
    /// LiteLoader part, without `inheritsFrom` and named after the install; nothing when
    /// the base file is not an object.
    pub fn build_version_json(
        &self,
        version_id: &str,
        base_version: &LiteLoaderRemoteVersion,
        base_json: JsonValue,
        remote_version: &LiteLoaderRemoteVersion,
        libraries: &Vec<Library>,
    ) -> (r: Option<JsonValue>)
        ensures
            match jview(base_json) {
                JsonModel::Object(a) => r is Some && jview(r->0) == JsonModel::Object(
                    version_members(
                        merge_members(
                            a,
                            match lite_version_node(version_id@, base_version.game_version@, remote_version.tweak_class@, libraries@) {
                                JsonModel::Object(b) => b,
                                _ => Seq::empty(),
                            },
                        ),
                        Some(version_id@),
                    ),
                ),
                _ => r is None,
            },
    {
        let lite = lite_version_json(version_id, base_version.game_version.as_str(), remote_version.tweak_class.as_str(), libraries);
        merge_version_json(base_json, lite, Some(version_id))
    }
}


// ---------------------------------------------------------------------------
// The version index
// ---------------------------------------------------------------------------

/// The text of a string node.
pub open spec fn str_of(v: Option<JsonModel>) -> Option<Seq<char>> {
    match v {
        Some(JsonModel::Str(s)) => Some(s),
        _ => None,
    }
}

pub open spec fn lib_entry_matches(e: Option<LiteLibEntry>, m: JsonModel) -> bool {
    match m {
        JsonModel::Object(ms) => e is Some && opt_view(e->0.name) == str_of(member_of(ms, "name"@)) && opt_view(e->0.url)
            == str_of(member_of(ms, "url"@)),
        _ => e is None,
    }
}

pub open spec fn lib_entries_match(l: Option<Vec<Option<LiteLibEntry>>>, v: Option<JsonModel>) -> bool {
    match v {
        Some(JsonModel::Array(items)) => l is Some && l->0@.len() == items.len() && forall|k: int|
            0 <= k < items.len() ==> lib_entry_matches(#[trigger] l->0@[k], items[k]),
        _ => l is None,
    }
}

/// The artefact read from a version object of the index (none for an entry that is no
/// object): its `version`, `file` and `tweakClass` strings and its `libraries` entries.
pub open spec fn artefact_matches(a: Option<LiteArtefact>, m: JsonModel) -> bool {
    match m {
        JsonModel::Object(ms) => a is Some && opt_view(a->0.version) == str_of(member_of(ms, "version"@)) && opt_view(
            a->0.file,
        ) == str_of(member_of(ms, "file"@)) && opt_view(a->0.tweak_class) == str_of(member_of(ms, "tweakClass"@))
            && lib_entries_match(a->0.libraries, member_of(ms, "libraries"@)),
        _ => a is None,
    }
}

/// The LiteLoader versions the index lists for a game version: the members of
/// `versions.{mc}.snapshots."com.mumfrey:liteloader"` when that is an object, else of
/// `versions.{mc}.artefacts."com.mumfrey:liteloader"`; none when neither is.
pub open spec fn lite_versions_node(root: JsonModel, mc: Seq<char>) -> Option<Seq<MemberModel>> {
    let m = jget(jget(Some(root), "versions"@), mc);
    let from = |node: Seq<char>|
        match jget(m, node) {
            Some(JsonModel::Object(nms)) => match member_of(nms, "com.mumfrey:liteloader"@) {
                Some(JsonModel::Object(lms)) => Some(lms),
                _ => None,
            },
            _ => None,
        };
    match m {
        Some(JsonModel::Object(_)) => match from("snapshots"@) {
            Some(l) => Some(l),
            None => from("artefacts"@),
        },
        _ => None,
    }
}

/// Why the version index could not be read.
#[derive(Debug, PartialEq, Eq)]
pub enum LiteIndexError {
    /// The index is not a JSON object.
    NotAnObject,
}

fn opt_str(v: Option<&JsonValue>) -> (r: Option<String>)
    ensures
        opt_view(r) == str_of(
            match v {
                Some(x) => Some(jview(*x)),
                None => None,
            },
        ),
{
    match v {
        Some(JsonValue::Str(s)) => Some(string_of(chars_of(s.as_str()).as_slice())),
        _ => None,
    }
}

fn lib_entry_of(v: &JsonValue) -> (r: Option<LiteLibEntry>)
    ensures
        lib_entry_matches(r, jview(*v)),
{
    match v {
        JsonValue::Object(_) => Some(LiteLibEntry { name: opt_str(get_member(v, "name")), url: opt_str(get_member(v, "url")) }),
        _ => None,
    }
}

fn artefact_of(v: &JsonValue) -> (r: Option<LiteArtefact>)
    ensures
        artefact_matches(r, jview(*v)),
{
    match v {
        JsonValue::Object(ms) => {
            let libraries = match get_member(v, "libraries") {
                Some(JsonValue::Array(items)) => {
                    proof {
                        lemma_items_view(items@);
                    }
                    let mut out: Vec<Option<LiteLibEntry>> = Vec::new();
                    let mut i: usize = 0;
                    while i < items.len()
                        invariant
                            i <= items.len(),
                            items_view(items@).len() == items.len(),
                            forall|k: int| 0 <= k < items.len() ==> #[trigger] items_view(items@)[k] == jview(items@[k]),
                            out@.len() == i,
                            forall|k: int| 0 <= k < i ==> lib_entry_matches(#[trigger] out@[k], items_view(items@)[k]),
                        decreases items.len() - i,
                    {
                        out.push(lib_entry_of(&items[i]));
                        i = i + 1;
                    }
                    Some(out)
                },
                _ => None,
            };
            Some(
                LiteArtefact {
                    version: opt_str(get_member(v, "version")),
                    file: opt_str(get_member(v, "file")),
                    tweak_class: opt_str(get_member(v, "tweakClass")),
                    libraries,
                },
            )
        },
        _ => None,
    }
}

fn liteloader_object<'a>(m: Option<&'a JsonValue>, node: &str) -> (r: Option<&'a Vec<JsonMember>>)
    ensures
        match r {
            Some(lms) => jget(
                match m {
                    Some(x) => Some(jview(*x)),
                    None => None,
                },
                node@,
            ) matches Some(JsonModel::Object(nms)) && member_of(nms, "com.mumfrey:liteloader"@) == Some(
                JsonModel::Object(members_view(lms@)),
            ),
            None => !(jget(
                match m {
                    Some(x) => Some(jview(*x)),
                    None => None,
                },
                node@,
            ) matches Some(JsonModel::Object(nms)) && member_of(nms, "com.mumfrey:liteloader"@) matches Some(
                JsonModel::Object(_),
            )),
        },
{
    let n = match m {
        Some(x) => get_member(x, node),
        None => None,
    };
    match n {
        Some(nv) => match nv {
            JsonValue::Object(_) => match get_member(nv, "com.mumfrey:liteloader") {
                Some(JsonValue::Object(lms)) => Some(lms),
                _ => None,
            },
            _ => None,
        },
        None => None,
    }
}

/// The version objects the index lists for a game version (see `lite_versions_node`), as
/// artefacts in index order; an index that is no object is refused.
pub fn liteloader_artefacts(root: &JsonValue, mc_version: &str) -> (r: Result<Option<Vec<Option<LiteArtefact>>>, LiteIndexError>)
    ensures
        !(jview(*root) is Object) ==> r == Err::<Option<Vec<Option<LiteArtefact>>>, LiteIndexError>(LiteIndexError::NotAnObject),
        jview(*root) is Object ==> match lite_versions_node(jview(*root), mc_version@) {
            None => r == Ok::<Option<Vec<Option<LiteArtefact>>>, LiteIndexError>(None),
            Some(lms) => r matches Ok(Some(v)) && v@.len() == lms.len() && forall|k: int|
                0 <= k < lms.len() ==> artefact_matches(#[trigger] v@[k], lms[k].value),
        },
{
    match root {
        JsonValue::Object(_) => {},
        _ => {
            return Err(LiteIndexError::NotAnObject);
        },
    }
    let m = get_in(get_member(root, "versions"), mc_version);
    let lms = match m {
        Some(mv) => match mv {
            JsonValue::Object(_) => match liteloader_object(m, "snapshots") {
                Some(l) => l,
                None => match liteloader_object(m, "artefacts") {
                    Some(l) => l,
                    None => {
                        return Ok(None);
                    },
                },
            },
            _ => {
                return Ok(None);
            },
        },
        None => {
            return Ok(None);
        },
    };
    proof {
        lemma_members_view(lms@);
    }
    let mut out: Vec<Option<LiteArtefact>> = Vec::new();
    let mut i: usize = 0;
    while i < lms.len()
        invariant
            i <= lms.len(),
            members_view(lms@).len() == lms.len(),
            forall|k: int| 0 <= k < lms.len() ==> #[trigger] members_view(lms@)[k] == (MemberModel { key: lms@[k].key@, value: jview(lms@[k].value) }),
            out@.len() == i,
            forall|k: int| 0 <= k < i ==> artefact_matches(#[trigger] out@[k], members_view(lms@)[k].value),
        decreases lms.len() - i,
    {
        out.push(artefact_of(&lms[i].value));
        i = i + 1;
    }
    Ok(Some(out))
}

} // verus!
