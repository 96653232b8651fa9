//! Maven coordinates: repository paths, library descriptors, keeping the newest
//! version of each library, and LiteLoader's library list.
use vstd::prelude::*;
use crate::text::{
    chars_of, is_blank, is_blank_exec, push_all, replace_all, replace_exec, seq_eq, slice_vec,
    split_any, split_any_exec, string_of, trim, trim_exec, trim_end_char, trim_end_char_exec,
};
use crate::mcversion::{before_first, before_first_exec};
use crate::version::{lemma_lex_order_antisym, lemma_lex_order_refl, lemma_lex_order_trans, lex_order, string_compare_ordinal};

verus! {

pub open spec fn jar_ext() -> Seq<char> {
    seq!['j', 'a', 'r']
}

/// `group:artifact:version[:classifier][@ext]` →
/// `group-with-slashes/artifact/version/artifact-version[-classifier].ext` (extension
/// `jar` unless an `@ext` suffix ends the coordinate); empty for fewer than three pieces.
pub open spec fn maven_path(m: Seq<char>) -> Seq<char> {
    let ps = split_any(m, seq![':']);
    if ps.len() < 3 {
        Seq::empty()
    } else {
        let lastp = ps.last();
        let head = before_first(lastp, '@');
        let ext = if head.len() < lastp.len() {
            lastp.skip(head.len() + 1int)
        } else {
            jar_ext()
        };
        let q = ps.update(ps.len() - 1, head);
        let classifier = if q.len() >= 4 {
            seq!['-'] + q[3]
        } else {
            Seq::empty()
        };
        replace_all(q[0], seq!['.'], seq!['/']) + seq!['/'] + q[1] + seq!['/'] + q[2] + seq!['/']
            + q[1] + seq!['-'] + q[2] + classifier + seq!['.'] + ext
    }
}


proof fn lemma_before_first_len(s: Seq<char>, c: char)
    ensures
        before_first(s, c).len() <= s.len(),
    decreases s.len(),
{
    if s.len() > 0 && s[0] != c {
        lemma_before_first_len(s.skip(1), c);
    }
}

/// Maven coordinate → repository-relative path, on characters.
pub fn maven_path_chars(m: &[char]) -> (r: Vec<char>)
    ensures
        r@ == maven_path(m@),
{
    let colon = chars_of(":");
    proof {
        reveal_strlit(":");
        assert(colon@ =~= seq![':']);
    }
    let ps = split_any_exec(m, colon.as_slice());
    let ghost sps = split_any(m@, seq![':']);
    if ps.len() < 3 {
        return Vec::new();
    }
    let n = ps.len();
    let lastp = &ps[n - 1];
    let head = before_first_exec(lastp.as_slice(), '@');
    proof {
        lemma_before_first_len(lastp@, '@');
    }
    let ext = if head.len() < lastp.len() {
        slice_vec(lastp.as_slice(), head.len() + 1, lastp.len())
    } else {
        let j = chars_of("jar");
        proof {
            reveal_strlit("jar");
            assert(j@ =~= jar_ext());
        }
        j
    };
    let ghost q = sps.update(sps.len() - 1, head@);
    let group: Vec<char> = if n - 1 == 0 {
        slice_vec(head.as_slice(), 0, head.len())
    } else {
        slice_vec(ps[0].as_slice(), 0, ps[0].len())
    };
    let artifact: Vec<char> = if n - 1 == 1 {
        slice_vec(head.as_slice(), 0, head.len())
    } else {
        slice_vec(ps[1].as_slice(), 0, ps[1].len())
    };
    let version: Vec<char> = if n - 1 == 2 {
        slice_vec(head.as_slice(), 0, head.len())
    } else {
        slice_vec(ps[2].as_slice(), 0, ps[2].len())
    };
    proof {
        assert(group@ =~= q[0]);
        assert(artifact@ =~= q[1]);
        assert(version@ =~= q[2]);
    }
    let dot = chars_of(".");
    let slash = chars_of("/");
    proof {
        reveal_strlit(".");
        reveal_strlit("/");
        assert(dot@ =~= seq!['.']);
        assert(slash@ =~= seq!['/']);
    }
    let mut r = replace_exec(group.as_slice(), dot.as_slice(), slash.as_slice());
    r.push('/');
    push_all(&mut r, artifact.as_slice());
    r.push('/');
    push_all(&mut r, version.as_slice());
    r.push('/');
    push_all(&mut r, artifact.as_slice());
    r.push('-');
    push_all(&mut r, version.as_slice());
    let ghost classifier: Seq<char> = if q.len() >= 4 {
        seq!['-'] + q[3]
    } else {
        Seq::empty()
    };
    let ghost before_cls = r@;
    if n >= 4 {
        r.push('-');
        if n - 1 == 3 {
            push_all(&mut r, head.as_slice());
        } else {
            push_all(&mut r, ps[3].as_slice());
        }
    }
    proof {
        assert(r@ =~= before_cls + classifier);
    }
    r.push('.');
    push_all(&mut r, ext.as_slice());
    proof {
        assert(r@ =~= maven_path(m@));
    }
    r
}

/// The repository path of a Maven coordinate.
pub fn maven_to_path(maven: &str) -> (r: String)
    ensures
        r@ == maven_path(maven@),
{
    string_of(maven_path_chars(chars_of(maven).as_slice()).as_slice())
}

// ---------------------------------------------------------------------------
// Library descriptors
// ---------------------------------------------------------------------------

/// A library named by a Maven coordinate, with what the installers derive from it.
#[derive(Debug)]
pub struct LibInfo {
    pub full_name: String,
    pub name: String,
    pub path: String,
    pub version: String,
    pub hash: String,
    pub url: String,
}

/// `group.artifact` of a coordinate with at least three pieces, else empty.
pub open spec fn lib_name_of(full: Seq<char>) -> Seq<char> {
    let ps = split_any(full, seq![':']);
    if full.len() > 0 && ps.len() >= 3 {
        ps[0] + seq!['.'] + ps[1]
    } else {
        Seq::empty()
    }
}

/// The version piece of a coordinate with at least three pieces, else empty.
pub open spec fn lib_version_of(full: Seq<char>) -> Seq<char> {
    let ps = split_any(full, seq![':']);
    if full.len() > 0 && ps.len() >= 3 {
        ps[2]
    } else {
        Seq::empty()
    }
}

/// The repository path of a coordinate with at least three pieces, else empty.
pub open spec fn lib_path_of(full: Seq<char>) -> Seq<char> {
    let ps = split_any(full, seq![':']);
    if full.len() > 0 && ps.len() >= 3 {
        maven_path(full)
    } else {
        Seq::empty()
    }
}

impl LibInfo {
    /// Builds the descriptor of a coordinate: name `group.artifact`, the version piece
    /// and the repository path when it has three pieces; hash and URL start empty.
    pub fn new(full_name: String) -> (r: LibInfo)
        ensures
            r.full_name@ == full_name@,
            r.name@ == lib_name_of(full_name@),
            r.version@ == lib_version_of(full_name@),
            r.path@ == lib_path_of(full_name@),
            r.hash@ == Seq::<char>::empty(),
            r.url@ == Seq::<char>::empty(),
    {
        let fc = chars_of(full_name.as_str());
        let colon = chars_of(":");
        proof {
            reveal_strlit(":");
            assert(colon@ =~= seq![':']);
        }
        let ps = split_any_exec(fc.as_slice(), colon.as_slice());
        if fc.len() > 0 && ps.len() >= 3 {
            let mut name = slice_vec(ps[0].as_slice(), 0, ps[0].len());
            name.push('.');
            push_all(&mut name, ps[1].as_slice());
            let path = maven_path_chars(fc.as_slice());
            proof {
                assert(name@ =~= ps@[0]@ + seq!['.'] + ps@[1]@);
            }
            LibInfo {
                full_name,
                name: string_of(name.as_slice()),
                path: string_of(path.as_slice()),
                version: string_of(ps[2].as_slice()),
                hash: String::new(),
                url: String::new(),
            }
        } else {
            LibInfo {
                full_name,
                name: String::new(),
                path: String::new(),
                version: String::new(),
                hash: String::new(),
                url: String::new(),
            }
        }
    }
}

/// Position of the first entry with the given name, or -1.
pub open spec fn index_of_name(libs: Seq<LibInfo>, name: Seq<char>) -> int
    decreases libs.len(),
{
    if libs.len() == 0 {
        -1
    } else {
        let i = index_of_name(libs.drop_last(), name);
        if i >= 0 {
            i
        } else if libs.last().name@ == name {
            libs.len() - 1
        } else {
            -1
        }
    }
}

/// One entry per library name, in order of first appearance,
/// each the first entry carrying the ordinally greatest version of that name.
pub open spec fn newest_libs(libs: Seq<LibInfo>) -> Seq<LibInfo>
    decreases libs.len(),
{
    if libs.len() == 0 {
        Seq::empty()
    } else {
        let r = newest_libs(libs.drop_last());
        let x = libs.last();
        let j = index_of_name(r, x.name@);
        if j < 0 {
            r.push(x)
        } else if lex_order(x.version@, r[j].version@) > 0 {
            r.update(j, x)
        } else {
            r
        }
    }
}

proof fn lemma_index_of_name(libs: Seq<LibInfo>, name: Seq<char>)
    ensures
        -1 <= index_of_name(libs, name) < libs.len(),
        index_of_name(libs, name) >= 0 ==> libs[index_of_name(libs, name)].name@ == name,
        index_of_name(libs, name) < 0 ==> forall|k: int|
            0 <= k < libs.len() ==> (#[trigger] libs[k]).name@ != name,
        index_of_name(libs, name) >= 0 ==> forall|k: int|
            0 <= k < index_of_name(libs, name) ==> (#[trigger] libs[k]).name@ != name,
    decreases libs.len(),
{
    if libs.len() > 0 {
        lemma_index_of_name(libs.drop_last(), name);
        let i = index_of_name(libs.drop_last(), name);
        assert forall|k: int| 0 <= k < libs.len() - 1 implies #[trigger] libs[k] == libs.drop_last()[k] by {}
    }
}

/// No two entries share a name.
pub open spec fn names_distinct(r: Seq<LibInfo>) -> bool {
    forall|i: int, j: int| 0 <= i < j < r.len() ==> (#[trigger] r[i]).name@ != (#[trigger] r[j]).name@
}

/// Some entry carries the name.
pub open spec fn has_name(r: Seq<LibInfo>, name: Seq<char>) -> bool {
    exists|k: int| 0 <= k < r.len() && (#[trigger] r[k]).name@ == name
}

/// What `check_libs_ver_static` keeps: one entry per library name; every name of the
/// input is kept; every kept entry is an entry of the input; and no input entry of the
/// same name carries an ordinally greater version than the kept one.
pub proof fn lemma_newest_libs(libs: Seq<LibInfo>)
    ensures
        names_distinct(newest_libs(libs)),
        forall|i: int| 0 <= i < libs.len() ==> has_name(newest_libs(libs), (#[trigger] libs[i]).name@),
        forall|k: int| 0 <= k < newest_libs(libs).len() ==> libs.contains(#[trigger] newest_libs(libs)[k]),
        forall|k: int, i: int|
            0 <= k < newest_libs(libs).len() && 0 <= i < libs.len() && (#[trigger] libs[i]).name@
                == (#[trigger] newest_libs(libs)[k]).name@ ==> lex_order(libs[i].version@, newest_libs(libs)[k].version@) <= 0,
    decreases libs.len(),
{
    if libs.len() > 0 {
        let p = libs.drop_last();
        let x = libs.last();
        lemma_newest_libs(p);
        let r = newest_libs(p);
        let j = index_of_name(r, x.name@);
        lemma_index_of_name(r, x.name@);
        let n = newest_libs(libs);
        assert forall|i: int| 0 <= i < p.len() implies #[trigger] libs[i] == p[i] by {}
        lemma_lex_order_refl(x.version@);
        if j < 0 {
            assert(n == r.push(x));
            assert forall|i: int, k: int| 0 <= i < k < n.len() implies (#[trigger] n[i]).name@ != (#[trigger] n[k]).name@ by {
                if k < r.len() {
                    assert(n[i] == r[i] && n[k] == r[k]);
                } else {
                    assert(n[i] == r[i]);
                }
            }
            assert forall|i: int| 0 <= i < libs.len() implies has_name(n, (#[trigger] libs[i]).name@) by {
                if i < p.len() {
                    assert(has_name(r, p[i].name@));
                    let k = choose|k: int| 0 <= k < r.len() && (#[trigger] r[k]).name@ == p[i].name@;
                    assert(n[k] == r[k]);
                } else {
                    assert(n[r.len() as int] == x);
                }
            }
            assert forall|k: int| 0 <= k < n.len() implies libs.contains(#[trigger] n[k]) by {
                if k < r.len() {
                    assert(n[k] == r[k]);
                    assert(p.contains(r[k]));
                    let i = choose|i: int| 0 <= i < p.len() && p[i] == r[k];
                    assert(libs[i] == p[i]);
                } else {
                    assert(libs[libs.len() - 1] == x);
                }
            }
            assert forall|k: int, i: int|
                0 <= k < n.len() && 0 <= i < libs.len() && (#[trigger] libs[i]).name@ == (#[trigger] n[k]).name@
                implies lex_order(libs[i].version@, n[k].version@) <= 0 by {
                if k < r.len() {
                    assert(n[k] == r[k]);
                    if i < p.len() {
                        assert(libs[i] == p[i]);
                    }
                } else {
                    assert(n[k] == x);
                    if i < p.len() {
                        assert(libs[i] == p[i]);
                        assert(has_name(r, p[i].name@));
                    }
                }
            }
        } else if lex_order(x.version@, r[j].version@) > 0 {
            assert(n == r.update(j, x));
            lemma_lex_order_antisym(x.version@, r[j].version@);
            assert forall|i: int, k: int| 0 <= i < k < n.len() implies (#[trigger] n[i]).name@ != (#[trigger] n[k]).name@ by {
                assert(n[i].name@ == r[i].name@ && n[k].name@ == r[k].name@);
            }
            assert forall|i: int| 0 <= i < libs.len() implies has_name(n, (#[trigger] libs[i]).name@) by {
                if i < p.len() {
                    assert(has_name(r, p[i].name@));
                    let k = choose|k: int| 0 <= k < r.len() && (#[trigger] r[k]).name@ == p[i].name@;
                    assert(n[k].name@ == r[k].name@);
                } else {
                    assert(n[j] == x);
                }
            }
            assert forall|k: int| 0 <= k < n.len() implies libs.contains(#[trigger] n[k]) by {
                if k != j {
                    assert(n[k] == r[k]);
                    assert(p.contains(r[k]));
                    let i = choose|i: int| 0 <= i < p.len() && p[i] == r[k];
                    assert(libs[i] == p[i]);
                } else {
                    assert(libs[libs.len() - 1] == x);
                }
            }
            assert forall|k: int, i: int|
                0 <= k < n.len() && 0 <= i < libs.len() && (#[trigger] libs[i]).name@ == (#[trigger] n[k]).name@
                implies lex_order(libs[i].version@, n[k].version@) <= 0 by {
                if k != j {
                    assert(n[k] == r[k]);
                    if i < p.len() {
                        assert(libs[i] == p[i]);
                    } else {
                        assert(r[k].name@ != r[j].name@);
                    }
                } else {
                    assert(n[k] == x);
                    if i < p.len() {
                        assert(libs[i] == p[i]);
                        assert(lex_order(p[i].version@, r[j].version@) <= 0);
                        lemma_lex_order_trans(p[i].version@, r[j].version@, x.version@);
                    }
                }
            }
        } else {
            assert(n == r);
            lemma_lex_order_antisym(x.version@, r[j].version@);
            assert forall|i: int| 0 <= i < libs.len() implies has_name(n, (#[trigger] libs[i]).name@) by {
                if i < p.len() {
                    assert(has_name(r, p[i].name@));
                } else {
                    assert(r[j].name@ == x.name@);
                }
            }
            assert forall|k: int| 0 <= k < n.len() implies libs.contains(#[trigger] n[k]) by {
                assert(p.contains(r[k]));
                let i = choose|i: int| 0 <= i < p.len() && p[i] == r[k];
                assert(libs[i] == p[i]);
            }
            assert forall|k: int, i: int|
                0 <= k < n.len() && 0 <= i < libs.len() && (#[trigger] libs[i]).name@ == (#[trigger] n[k]).name@
                implies lex_order(libs[i].version@, n[k].version@) <= 0 by {
                if i < p.len() {
                    assert(libs[i] == p[i]);
                } else {
                    if k != j {
                        assert(r[k].name@ != r[j].name@);
                    }
                }
            }
        }
    }
}

fn find_name(libs: &Vec<LibInfo>, name: &String) -> (r: Option<usize>)
    ensures
        match r {
            Some(j) => j as int == index_of_name(libs@, name@) && j < libs.len(),
            None => index_of_name(libs@, name@) < 0,
        },
{
    proof {
        lemma_index_of_name(libs@, name@);
    }
    let mut i: usize = 0;
    while i < libs.len()
        invariant
            i <= libs.len(),
            forall|k: int| 0 <= k < i ==> (#[trigger] libs@[k]).name@ != name@,
            -1 <= index_of_name(libs@, name@) < libs.len(),
            index_of_name(libs@, name@) >= 0 ==> libs@[index_of_name(libs@, name@)].name@ == name@,
            index_of_name(libs@, name@) < 0 ==> forall|k: int|
                0 <= k < libs.len() ==> (#[trigger] libs@[k]).name@ != name@,
            index_of_name(libs@, name@) >= 0 ==> forall|k: int|
                0 <= k < index_of_name(libs@, name@) ==> (#[trigger] libs@[k]).name@ != name@,
        decreases libs.len() - i,
    {
        if libs[i].name == *name {
            return Some(i);
        }
        i = i + 1;
    }
    None
}

/// Keeps the newest version of each library.
pub fn check_libs_ver_static(libs: Vec<LibInfo>) -> (r: Vec<LibInfo>)
    ensures
        r@ == newest_libs(libs@),
{
    let ghost all = libs@;
    assert(all.len() == libs.len());
    let mut rest = libs;
    let mut r: Vec<LibInfo> = Vec::new();
    let mut i: usize = 0;
    proof {
        assert(all.take(0) =~= Seq::<LibInfo>::empty());
        assert(rest@ =~= all.skip(0));
    }
    while rest.len() > 0
        invariant
            all.len() <= usize::MAX,
            i + rest@.len() == all.len(),
            rest@ == all.skip(i as int),
            r@ == newest_libs(all.take(i as int)),
        decreases rest@.len(),
    {
        let x = rest.remove(0);
        proof {
            assert(x == all[i as int]);
            assert(all.take(i + 1).drop_last() =~= all.take(i as int));
            assert(all.take(i + 1).last() == x);
            assert(rest@ =~= all.skip(i + 1));
        }
        match find_name(&r, &x.name) {
            None => {
                r.push(x);
            },
            Some(j) => {
                let c = string_compare_ordinal(
                    chars_of(x.version.as_str()).as_slice(),
                    chars_of(r[j].version.as_str()).as_slice(),
                );
                if c > 0 {
                    r.set(j, x);
                }
            },
        }
        i = i + 1;
    }
    proof {
        assert(all.take(i as int) =~= all);
    }
    r
}

// ---------------------------------------------------------------------------
// LiteLoader libraries
// ---------------------------------------------------------------------------

/// A Maven coordinate split into its parts.
pub struct Artifact {
    pub group_id: String,
    pub artifact_id: String,
    pub version: String,
}

/// `Artifact.ToString()`: `group:artifact:version`.
pub open spec fn artifact_coord(a: Artifact) -> Seq<char> {
    a.group_id@ + seq![':'] + a.artifact_id@ + seq![':'] + a.version@
}

impl Artifact {
    /// `group:artifact:version`.
    pub fn to_coordinate(&self) -> (r: String)
        ensures
            r@ == artifact_coord(*self),
    {
        let mut v = chars_of(self.group_id.as_str());
        v.push(':');
        push_all(&mut v, chars_of(self.artifact_id.as_str()).as_slice());
        v.push(':');
        push_all(&mut v, chars_of(self.version.as_str()).as_slice());
        proof {
            assert(v@ =~= artifact_coord(*self));
        }
        string_of(v.as_slice())
    }
}

/// Download location of a library.
pub struct LibraryDownloadInfo {
    pub path: Option<String>,
    pub url: Option<String>,
}

/// A library entry of a LiteLoader version.
pub struct Library {
    pub artifact: Option<Artifact>,
    pub url: Option<String>,
    pub download_info: Option<LibraryDownloadInfo>,
}

/// The first three pieces, trimmed, when none is empty.
pub open spec fn parsed_coordinate(m: Seq<char>) -> Option<(Seq<char>, Seq<char>, Seq<char>)> {
    let ps = split_any(m, seq![':']);
    if is_blank(m) || ps.len() < 3 {
        None
    } else if trim(ps[0]).len() == 0 || trim(ps[1]).len() == 0 || trim(ps[2]).len() == 0 {
        None
    } else {
        Some((trim(ps[0]), trim(ps[1]), trim(ps[2])))
    }
}

/// Splits a Maven coordinate into its group, name and version.
pub fn parse_maven_coordinate(maven: &str) -> (r: Option<Artifact>)
    ensures
        match (r, parsed_coordinate(maven@)) {
            (Some(a), Some((g, n, v))) => a.group_id@ == g && a.artifact_id@ == n && a.version@
                == v,
            (None, None) => true,
            _ => false,
        },
{
    let m = chars_of(maven);
    if is_blank_exec(m.as_slice()) {
        return None;
    }
    let colon = chars_of(":");
    proof {
        reveal_strlit(":");
        assert(colon@ =~= seq![':']);
    }
    let ps = split_any_exec(m.as_slice(), colon.as_slice());
    if ps.len() < 3 {
        return None;
    }
    let g = trim_exec(ps[0].as_slice());
    let a = trim_exec(ps[1].as_slice());
    let v = trim_exec(ps[2].as_slice());
    if g.len() == 0 || a.len() == 0 || v.len() == 0 {
        return None;
    }
    Some(
        Artifact {
            group_id: string_of(g.as_slice()),
            artifact_id: string_of(a.as_slice()),
            version: string_of(v.as_slice()),
        },
    )
}

/// The base library list already holds the core library's coordinate.
pub open spec fn has_coordinate(libs: Seq<Library>, coord: Seq<char>) -> bool {
    exists|i: int|
        0 <= i < libs.len() && (#[trigger] libs[i]).artifact is Some && artifact_coord(
            libs[i].artifact->0,
        ) == coord
}

} // verus!
