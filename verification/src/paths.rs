//! Filesystem layout, relative to the project root. The root is where the
//! markers of the project are: at the working directory, at the binary, or up to
//! a few directories above.
use vstd::prelude::*;
use crate::chars;
use crate::text;

verus! {

/// The files and directories of a project.
#[derive(Debug)]
pub struct Paths {
    pub project_root: String,
    pub default_catalog: String,
    pub user_catalog_dir: String,
    pub models_dir: String,
    pub profile: String,
    pub system: String,
}

#[verifier::ext_equal]
pub struct PathsView {
    pub project_root: Seq<char>,
    pub default_catalog: Seq<char>,
    pub user_catalog_dir: Seq<char>,
    pub models_dir: Seq<char>,
    pub profile: Seq<char>,
    pub system: Seq<char>,
}

impl View for Paths {
    type V = PathsView;

    open spec fn view(&self) -> PathsView {
        PathsView {
            project_root: self.project_root@,
            default_catalog: self.default_catalog@,
            user_catalog_dir: self.user_catalog_dir@,
            models_dir: self.models_dir@,
            profile: self.profile@,
            system: self.system@,
        }
    }
}

/// The path `part` seen from the directory `base`: `part` itself if it is
/// absolute, else behind `base` and a slash.
pub open spec fn spec_join(base: Seq<char>, part: Seq<char>) -> Seq<char> {
    if part.len() > 0 && part[0] == '/' {
        part
    } else if base.len() == 0 || base.last() == '/' {
        base + part
    } else {
        base + "/"@ + part
    }
}

pub fn join(base: &str, part: &str) -> (r: String)
    ensures
        r@ == spec_join(base@, part@),
{
    let b: Vec<char> = text::chars_of(base);
    let p: Vec<char> = text::chars_of(part);
    if p.len() > 0 && p[0] == '/' {
        part.to_owned()
    } else if b.len() == 0 || b[b.len() - 1] == '/' {
        text::cat2(base, part)
    } else {
        text::cat3(base, "/", part)
    }
}

pub open spec fn layout(root: Seq<char>) -> PathsView {
    let catalogs = spec_join(root, "catalogs"@);
    PathsView {
        project_root: root,
        default_catalog: spec_join(catalogs, "default.toml"@),
        user_catalog_dir: spec_join(catalogs, "user"@),
        models_dir: spec_join(root, "models"@),
        profile: spec_join(root, "profile.toml"@),
        system: spec_join(root, "system.toml"@),
    }
}

/// The layout of the project at `root`.
pub fn resolve(root: String) -> (r: Paths)
    ensures
        r@ == layout(root@),
{
    let catalogs: String = join(&root, "catalogs");
    Paths {
        default_catalog: join(&catalogs, "default.toml"),
        user_catalog_dir: join(&catalogs, "user"),
        models_dir: join(&root, "models"),
        profile: join(&root, "profile.toml"),
        system: join(&root, "system.toml"),
        project_root: root,
    }
}

/// The path without slashes at its end, and without dots that stand for the
/// directory itself there.
pub open spec fn solid(path: Seq<char>) -> Seq<char>
    decreases path.len(),
{
    if path.len() > 0 && (path.last() == '/' || path.len() > 1 && path.last() == '.' && path[
        path.len() - 2] == '/') {
        solid(path.drop_last())
    } else {
        path
    }
}

/// Where the last `c` stands, or -1.
pub open spec fn last_position(s: Seq<char>, c: char) -> int
    decreases s.len(),
{
    if s.len() == 0 {
        -1
    } else if s.last() == c {
        s.len() - 1
    } else {
        last_position(s.drop_last(), c)
    }
}

/// Where the extension of the file name begins, or the end if it has none: at its
/// last dot, unless the name begins with that.
pub open spec fn stem_end(path: Seq<char>) -> int {
    let slash = last_position(path, '/');
    let dot = last_position(path, '.');
    if dot > slash + 1 {
        dot
    } else {
        path.len() as int
    }
}

/// Where a file is put while it is downloaded: its extension is replaced. A path that
/// names no file is left alone.
pub open spec fn spec_partial_path(dest: Seq<char>) -> Seq<char> {
    let path = solid(dest);
    let name = path.skip(last_position(path, '/') + 1);
    if name.len() == 0 || name == "."@ || name == ".."@ {
        dest
    } else {
        path.take(stem_end(path)) + ".gguf.partial"@
    }
}

fn rfind(v: &Vec<char>, n: usize, c: char) -> (r: Option<usize>)
    requires
        n <= v@.len(),
    ensures
        match r {
            Some(i) => i < n && last_position(v@.take(n as int), c) == i,
            None => last_position(v@.take(n as int), c) == -1,
        },
{
    let ghost all = v@.take(n as int);
    let mut i: usize = n;
    assert(all.take(i as int) =~= all);
    while i > 0
        invariant
            i <= n <= v@.len(),
            all == v@.take(n as int),
            last_position(all, c) == last_position(all.take(i as int), c),
        decreases i,
    {
        assert(all.take(i as int).drop_last() =~= all.take(i - 1));
        assert(all.take(i as int).last() == v@[i - 1]);
        if v[i - 1] == c {
            return Some(i - 1);
        }
        i = i - 1;
    }
    None
}

pub fn partial_path(dest: &str) -> (r: String)
    ensures
        r@ == spec_partial_path(dest@),
{
    let v: Vec<char> = text::chars_of(dest);
    let mut n: usize = v.len();
    assert(v@.take(n as int) =~= v@);
    while n > 0 && (v[n - 1] == '/' || (n > 1 && v[n - 1] == '.' && v[n - 2] == '/'))
        invariant
            n <= v@.len(),
            solid(v@) == solid(v@.take(n as int)),
        decreases n,
    {
        assert(v@.take(n as int).drop_last() =~= v@.take(n - 1));
        n = n - 1;
    }
    let ghost path = v@.take(n as int);
    assert(solid(v@) == path);
    let from: usize = match rfind(&v, n, '/') {
        Some(i) => i + 1,
        None => 0,
    };
    let name: String = text::slice(&v, from, n);
    assert(name@ =~= path.skip(last_position(path, '/') + 1));
    if from == n || text::same(&name, ".") || text::same(&name, "..") {
        return dest.to_owned();
    }
    let end: usize = match rfind(&v, n, '.') {
        Some(i) => if i > from {
            i
        } else {
            n
        },
        None => n,
    };
    let stem: String = text::slice(&v, 0, end);
    assert(stem@ =~= path.take(stem_end(path)));
    text::cat2(&stem, ".gguf.partial")
}

// ---------------------------------------------------------------------------
// The project root
// ---------------------------------------------------------------------------

/// A directory that may be the project root, and which markers are in it.
#[derive(Debug)]
pub struct Candidate {
    pub path: String,
    /// `vello-installer` is there.
    pub installer: bool,
    /// `docker-compose.yml` is there.
    pub compose: bool,
}

#[verifier::ext_equal]
pub struct CandidateView {
    pub path: Seq<char>,
    pub installer: bool,
    pub compose: bool,
}

impl View for Candidate {
    type V = CandidateView;

    open spec fn view(&self) -> CandidateView {
        CandidateView { path: self.path@, installer: self.installer, compose: self.compose }
    }
}

pub open spec fn candidates_of(list: Seq<Candidate>) -> Seq<CandidateView> {
    list.map_values(|c: Candidate| c@)
}

/// How many directories are looked at, each time.
pub const DEPTH: usize = 6;

/// The first of the candidates that has the installer, and the compose file too
/// if that is asked for.
pub open spec fn first_marked(list: Seq<CandidateView>, both: bool) -> Option<Seq<char>>
    decreases list.len(),
{
    if list.len() == 0 {
        None
    } else if list[0].installer && (both ==> list[0].compose) {
        Some(list[0].path)
    } else {
        first_marked(list.drop_first(), both)
    }
}

pub open spec fn nearest_few(list: Seq<CandidateView>) -> Seq<CandidateView> {
    if list.len() > DEPTH {
        list.take(DEPTH as int)
    } else {
        list
    }
}

/// The root from the working directory upwards, where both markers count, else
/// from the binary upwards, where the installer is enough.
pub open spec fn spec_find_root(
    around_cwd: Seq<CandidateView>,
    around_exe: Seq<CandidateView>,
) -> Option<Seq<char>> {
    match first_marked(nearest_few(around_cwd), true) {
        Some(p) => Some(p),
        None => first_marked(nearest_few(around_exe), false),
    }
}

fn find_marked(list: &Vec<Candidate>, both: bool) -> (r: Option<String>)
    ensures
        r.deep_view() == first_marked(nearest_few(candidates_of(list@)), both),
{
    let ghost all = nearest_few(candidates_of(list@));
    let n: usize = if list.len() > DEPTH {
        DEPTH
    } else {
        list.len()
    };
    let mut i: usize = 0;
    assert(all.skip(0) =~= all);
    while i < n
        invariant
            i <= n <= list@.len(),
            n == all.len(),
            all == nearest_few(candidates_of(list@)),
            first_marked(all, both) == first_marked(all.skip(i as int), both),
        decreases n - i,
    {
        proof {
            assert(all.skip(i as int).drop_first() =~= all.skip(i + 1));
            assert(all.skip(i as int)[0] == list@[i as int]@);
        }
        if list[i].installer && (!both || list[i].compose) {
            return Some(list[i].path.clone());
        }
        i = i + 1;
    }
    None
}

/// The project root, given the working directory and the directories from it
/// and from the binary upwards.
pub fn find_project_root(
    cwd: &str,
    around_cwd: &Vec<Candidate>,
    around_exe: &Vec<Candidate>,
) -> (r: Result<String, String>)
    ensures
        match r {
            Ok(p) => spec_find_root(
                candidates_of(around_cwd@),
                candidates_of(around_exe@),
            ) == Some(p@),
            Err(e) => {
                &&& spec_find_root(
                    candidates_of(around_cwd@),
                    candidates_of(around_exe@),
                ) is None
                &&& e@ == "could not locate the project root from "@ + cwd@
                    + ". Set VELLO_PROJECT_ROOT or run vello from inside the project."@
            },
        },
{
    if let Some(p) = find_marked(around_cwd, true) {
        return Ok(p);
    }
    if let Some(p) = find_marked(around_exe, false) {
        return Ok(p);
    }
    Err(
        text::cat3(
            "could not locate the project root from ",
            cwd,
            ". Set VELLO_PROJECT_ROOT or run vello from inside the project.",
        ),
    )
}

// ---------------------------------------------------------------------------
// Comparing paths
// ---------------------------------------------------------------------------

/// A part of a path that names something: not empty, and not the directory
/// itself.
pub open spec fn names_something(part: Seq<char>) -> bool {
    part.len() > 0 && part != "."@
}

pub open spec fn named_parts(parts: Seq<Seq<char>>) -> Seq<Seq<char>>
    decreases parts.len(),
{
    if parts.len() == 0 {
        Seq::empty()
    } else if names_something(parts.last()) {
        named_parts(parts.drop_last()).push(parts.last())
    } else {
        named_parts(parts.drop_last())
    }
}

/// The components of a path: repeated slashes, a slash at the end, and dots for
/// the directory itself do not count, but for a slash or a dot at the start.
pub open spec fn components(path: Seq<char>) -> (bool, bool, Seq<Seq<char>>) {
    let parts = chars::split(path, '/');
    let absolute = path.len() > 0 && path[0] == '/';
    (absolute, !absolute && parts[0] == "."@, named_parts(parts))
}

/// The paths have the same components.
pub open spec fn spec_same_path(a: Seq<char>, b: Seq<char>) -> bool {
    components(a) == components(b)
}

fn parts_of(path: &str) -> (r: (bool, bool, Vec<String>))
    ensures
        (r.0, r.1, r.2.deep_view()) == components(path@),
{
    let list: Vec<String> = text::split(path, '/');
    let ghost all = list.deep_view();
    proof {
        assert(all.len() > 0) by {
            assert(chars::split(path@, '/').len() > 0);
        }
    }
    let v: Vec<char> = text::chars_of(path);
    let absolute: bool = v.len() > 0 && v[0] == '/';
    assert(all[0] == list@[0]@);
    let dotted: bool = !absolute && text::same(&list[0], ".");
    let mut out: Vec<String> = Vec::new();
    let mut i: usize = 0;
    assert(out.deep_view() =~= named_parts(all.take(0)));
    while i < list.len()
        invariant
            i <= list@.len(),
            all == list.deep_view(),
            out.deep_view() == named_parts(all.take(i as int)),
        decreases list@.len() - i,
    {
        let ghost before = out.deep_view();
        proof {
            let t = all.take(i + 1);
            assert(t.drop_last() =~= all.take(i as int));
            assert(t.last() == list@[i as int]@);
        }
        if !list[i].as_str().is_empty() && !text::same(&list[i], ".") {
            out.push(list[i].clone());
            assert(out.deep_view() =~= before.push(list@[i as int]@));
        }
        i = i + 1;
    }
    assert(all.take(i as int) =~= all);
    (absolute, dotted, out)
}

fn same_list(a: &Vec<String>, b: &Vec<String>) -> (r: bool)
    ensures
        r == (a.deep_view() == b.deep_view()),
{
    if a.len() != b.len() {
        assert(a.deep_view().len() != b.deep_view().len());
        return false;
    }
    let mut i: usize = 0;
    while i < a.len()
        invariant
            i <= a@.len() == b@.len(),
            forall|k: int| 0 <= k < i ==> #[trigger] a@[k]@ == b@[k]@,
        decreases a@.len() - i,
    {
        if !text::same(&a[i], &b[i]) {
            assert(a.deep_view()[i as int] != b.deep_view()[i as int]);
            return false;
        }
        i = i + 1;
    }
    assert(a.deep_view() =~= b.deep_view());
    true
}

/// Whether two paths have the same components.
pub fn same_path(a: &str, b: &str) -> (r: bool)
    ensures
        r == spec_same_path(a@, b@),
{
    let (x, d, p) = parts_of(a);
    let (y, e, q) = parts_of(b);
    x == y && d == e && same_list(&p, &q)
}

/// A directory of the `PATH` is the same path as `dir`.
pub open spec fn spec_on_path(path_var: Seq<char>, dir: Seq<char>) -> bool {
    exists|i: int|
        0 <= i < chars::split(path_var, ':').len() && spec_same_path(
            #[trigger] chars::split(path_var, ':')[i],
            dir,
        )
}

/// Whether `dir` is one of the directories of the `PATH`, if that is set.
pub fn on_path(path_var: Option<&str>, dir: &str) -> (r: bool)
    ensures
        r == (path_var matches Some(p) && spec_on_path(p@, dir@)),
{
    match path_var {
        None => false,
        Some(p) => {
            let list: Vec<String> = text::split(p, ':');
            let ghost all = list.deep_view();
            let mut i: usize = 0;
            while i < list.len()
                invariant
                    i <= list@.len(),
                    all == list.deep_view(),
                    all == chars::split(p@, ':'),
                    path_var == Some(p),
                    forall|k: int| 0 <= k < i ==> !spec_same_path(#[trigger] all[k], dir@),
                decreases list@.len() - i,
            {
                assert(all[i as int] == list@[i as int]@);
                if same_path(&list[i], dir) {
                    return true;
                }
                i = i + 1;
            }
            false
        },
    }
}

/// A part is joined with one slash; after a base that ends in one, or is empty, with none;
/// and a part that starts at the root stands alone.
pub proof fn law_join(base: Seq<char>, part: Seq<char>)
    ensures
        chars::ends_with(spec_join(base, part), part),
        part.len() > 0 && part[0] == '/' ==> spec_join(base, part) == part,
        !(part.len() > 0 && part[0] == '/') ==> chars::starts_with(spec_join(base, part), base)
            && spec_join(base, part).len() == base.len() + part.len() + (if base.len() > 0
            && base.last() != '/' {
            1int
        } else {
            0int
        }),
        !(part.len() > 0 && part[0] == '/') && base.len() > 0 ==> spec_join(
            base,
            part,
        )[spec_join(base, part).len() - part.len() - 1] == '/',
{
    reveal_strlit("/");
    let all = spec_join(base, part);
    assert(part.skip(0) =~= part);
    if !(part.len() > 0 && part[0] == '/') {
        assert(all.skip(all.len() - part.len()) =~= part);
        assert(all.take(base.len() as int) =~= base);
    }
}

/// Where the files of a project lie.
pub proof fn law_layout(root: Seq<char>)
    ensures
        layout(root).project_root == root,
        layout(root).default_catalog == spec_join(spec_join(root, "catalogs"@), "default.toml"@),
        layout(root).user_catalog_dir == spec_join(spec_join(root, "catalogs"@), "user"@),
        layout(root).models_dir == spec_join(root, "models"@),
        layout(root).profile == spec_join(root, "profile.toml"@),
        layout(root).system == spec_join(root, "system.toml"@),
{
}

proof fn lemma_last_position_is(s: Seq<char>, c: char, i: int)
    requires
        -1 <= i < s.len(),
        i >= 0 ==> s[i] == c,
        forall|k: int| i < k < s.len() ==> s[k] != c,
    ensures
        last_position(s, c) == i,
    decreases s.len(),
{
    if s.len() > 0 && i < s.len() - 1 {
        assert(s[s.len() - 1] != c);
        lemma_last_position_is(s.drop_last(), c, i);
    }
}

/// The extension of a file that is being downloaded is replaced, and nothing else of its
/// path is.
pub proof fn law_partial_path(dir: Seq<char>, stem: Seq<char>, ext: Seq<char>)
    requires
        stem.len() > 0,
        ext.len() > 0,
        forall|k: int| 0 <= k < stem.len() ==> stem[k] != '/',
        forall|k: int| 0 <= k < ext.len() ==> ext[k] != '/' && ext[k] != '.',
    ensures
        spec_partial_path(dir + seq!['/'] + stem + seq!['.'] + ext) == dir + seq!['/'] + stem
            + ".gguf.partial"@,
{
    let path = dir + seq!['/'] + stem + seq!['.'] + ext;
    let d = dir.len() as int;
    let n = d + 1 + stem.len();
    reveal_strlit(".");
    reveal_strlit("..");
    assert(path[d] == '/');
    assert(path[n] == '.');
    assert(path.last() == ext.last());
    assert(solid(path) == path);
    assert forall|k: int| d < k < path.len() implies path[k] != '/' by {
        if k < n {
            assert(path[k] == stem[k - d - 1]);
        } else if k > n {
            assert(path[k] == ext[k - n - 1]);
        }
    }
    assert forall|k: int| n < k < path.len() implies path[k] != '.' by {
        assert(path[k] == ext[k - n - 1]);
    }
    lemma_last_position_is(path, '/', d);
    lemma_last_position_is(path, '.', n);
    let name = path.skip(d + 1);
    assert(name.len() >= 3);
    assert(path.take(n) =~= dir + seq!['/'] + stem);
}

/// The root is the first directory with both marks on the way up from where the command
/// runs; else the first with the installer on the way up from where the program lies. The
/// way is six directories at most.
pub proof fn law_find_root(around_cwd: Seq<CandidateView>, around_exe: Seq<CandidateView>)
    ensures
        match spec_find_root(around_cwd, around_exe) {
            Some(p) => {
                ||| exists|i: int|
                    0 <= i < around_cwd.len() && i < 6 && (#[trigger] around_cwd[i]).path == p
                        && around_cwd[i].installer && around_cwd[i].compose && forall|j: int|
                        0 <= j < i ==> !((#[trigger] around_cwd[j]).installer
                            && around_cwd[j].compose)
                ||| exists|i: int|
                    0 <= i < around_exe.len() && i < 6 && (#[trigger] around_exe[i]).path == p
                        && around_exe[i].installer && (forall|j: int|
                        0 <= j < i ==> !(#[trigger] around_exe[j]).installer) && forall|j: int|
                        0 <= j < around_cwd.len() && j < 6 ==> !((
                        #[trigger] around_cwd[j]).installer && around_cwd[j].compose)
            },
            None => {
                &&& forall|j: int|
                    0 <= j < around_cwd.len() && j < 6 ==> !((#[trigger] around_cwd[j]).installer
                        && around_cwd[j].compose)
                &&& forall|j: int|
                    0 <= j < around_exe.len() && j < 6 ==> !(#[trigger] around_exe[j]).installer
            },
        },
{
    let a = nearest_few(around_cwd);
    let b = nearest_few(around_exe);
    lemma_first_marked(a, true);
    lemma_first_marked(b, false);
    assert forall|j: int| 0 <= j < a.len() implies #[trigger] around_cwd[j] == a[j] by {}
    assert forall|j: int| 0 <= j < b.len() implies #[trigger] around_exe[j] == b[j] by {}
    if first_marked(a, true) is Some {
        let i = choose|i: int|
            0 <= i < a.len() && Some((#[trigger] a[i]).path) == first_marked(a, true) && marked(
                a[i],
                true,
            ) && forall|j: int| 0 <= j < i ==> !marked(#[trigger] a[j], true);
        assert(around_cwd[i] == a[i]);
        assert forall|j: int| 0 <= j < i implies !((#[trigger] around_cwd[j]).installer
            && around_cwd[j].compose) by {
            assert(!marked(a[j], true));
        }
    } else {
        assert forall|j: int| 0 <= j < around_cwd.len() && j < 6 implies !((
        #[trigger] around_cwd[j]).installer && around_cwd[j].compose) by {
            assert(!marked(a[j], true));
        }
        if first_marked(b, false) is Some {
            let i = choose|i: int|
                0 <= i < b.len() && Some((#[trigger] b[i]).path) == first_marked(b, false)
                    && marked(b[i], false) && forall|j: int|
                    0 <= j < i ==> !marked(#[trigger] b[j], false);
            assert(around_exe[i] == b[i]);
            assert forall|j: int| 0 <= j < i implies !(#[trigger] around_exe[j]).installer by {
                assert(!marked(b[j], false));
            }
        } else {
            assert forall|j: int| 0 <= j < around_exe.len() && j < 6 implies !(
            #[trigger] around_exe[j]).installer by {
                assert(!marked(b[j], false));
            }
        }
    }
}

spec fn marked(c: CandidateView, both: bool) -> bool {
    c.installer && (both ==> c.compose)
}

proof fn lemma_first_marked(list: Seq<CandidateView>, both: bool)
    ensures
        match first_marked(list, both) {
            Some(p) => exists|i: int|
                0 <= i < list.len() && Some((#[trigger] list[i]).path) == first_marked(list, both)
                    && marked(list[i], both) && forall|j: int|
                    0 <= j < i ==> !marked(#[trigger] list[j], both),
            None => forall|j: int| 0 <= j < list.len() ==> !marked(#[trigger] list[j], both),
        },
    decreases list.len(),
{
    if list.len() > 0 {
        let rest = list.drop_first();
        lemma_first_marked(rest, both);
        if marked(list[0], both) {
            assert(Some(list[0].path) == first_marked(list, both));
        } else if first_marked(rest, both) is Some {
            let i = choose|i: int|
                0 <= i < rest.len() && Some((#[trigger] rest[i]).path) == first_marked(rest, both)
                    && marked(rest[i], both) && forall|j: int|
                    0 <= j < i ==> !marked(#[trigger] rest[j], both);
            assert(list[i + 1] == rest[i]);
            assert forall|j: int| 0 <= j < i + 1 implies !marked(#[trigger] list[j], both) by {
                if j > 0 {
                    assert(list[j] == rest[j - 1]);
                }
            }
        } else {
            assert forall|j: int| 0 <= j < list.len() implies !marked(#[trigger] list[j], both) by {
                if j > 0 {
                    assert(list[j] == rest[j - 1]);
                }
            }
        }
    }
}

/// What a path is made of: its parts in their order, without the empty ones and the dots.
pub proof fn law_named_parts(parts: Seq<Seq<char>>)
    ensures
        named_parts(parts) == parts.filter(|p: Seq<char>| p.len() > 0 && p != "."@),
    decreases parts.len(),
{
    reveal(Seq::filter);
    if parts.len() > 0 {
        law_named_parts(parts.drop_last());
    }
}

/// Paths are the same if they have the same parts and start in the same way: at the root,
/// with a dot, or neither.
pub proof fn law_same_path(a: Seq<char>, b: Seq<char>)
    ensures
        spec_same_path(a, b) <==> {
            let at_root = |p: Seq<char>| p.len() > 0 && p[0] == '/';
            let at_dot = |p: Seq<char>| !at_root(p) && chars::split(p, '/')[0] == "."@;
            &&& at_root(a) == at_root(b)
            &&& at_dot(a) == at_dot(b)
            &&& named_parts(chars::split(a, '/')) == named_parts(chars::split(b, '/'))
        },
{
}

/// A name without an extension gets one, and so does one that only starts with a dot.
pub proof fn law_partial_without_extension(dir: Seq<char>, name: Seq<char>)
    requires
        name.len() > 0,
        name != "."@,
        forall|k: int| 0 <= k < name.len() ==> name[k] != '/',
        forall|k: int| 0 < k < name.len() ==> name[k] != '.',
    ensures
        spec_partial_path(dir + seq!['/'] + name) == dir + seq!['/'] + name + ".gguf.partial"@,
{
    let path = dir + seq!['/'] + name;
    let d = dir.len() as int;
    reveal_strlit(".");
    reveal_strlit("..");
    assert(path[d] == '/');
    assert(path.last() == name.last());
    if name.len() == 1 {
        if name[0] == '.' {
            assert(name =~= "."@);
        }
    } else {
        assert(path[path.len() - 2] == name[name.len() - 2]);
    }
    assert(solid(path) == path);
    assert forall|k: int| d < k < path.len() implies path[k] != '/' by {
        assert(path[k] == name[k - d - 1]);
    }
    lemma_last_position_is(path, '/', d);
    lemma_last_position_at_most(path, '.', d + 1);
    assert(path.skip(d + 1) =~= name);
    if name.len() == 2 {
        assert(name[1] != '.');
    }
    assert(path.take(path.len() as int) =~= path);
}

proof fn lemma_last_position_at_most(s: Seq<char>, c: char, i: int)
    requires
        forall|k: int| i < k < s.len() ==> s[k] != c,
        i >= -1,
    ensures
        last_position(s, c) <= i,
    decreases s.len(),
{
    if s.len() > 0 && s.last() != c {
        lemma_last_position_at_most(s.drop_last(), c, i);
    } else if s.len() > 0 {
        assert(s[s.len() - 1] == c);
    }
}

} // verus!
