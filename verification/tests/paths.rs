use vello::paths::{find_project_root, join, on_path, partial_path, resolve, same_path, Candidate};

fn at(path: &str, installer: bool, compose: bool) -> Candidate {
    Candidate {
        path: path.into(),
        installer,
        compose,
    }
}

#[test]
fn the_layout_of_a_project() {
    let p = resolve("/home/me/vello".into());
    assert_eq!(p.project_root, "/home/me/vello");
    assert_eq!(p.default_catalog, "/home/me/vello/catalogs/default.toml");
    assert_eq!(p.user_catalog_dir, "/home/me/vello/catalogs/user");
    assert_eq!(p.models_dir, "/home/me/vello/models");
    assert_eq!(p.profile, "/home/me/vello/profile.toml");
    assert_eq!(p.system, "/home/me/vello/system.toml");
}

#[test]
fn joining_is_that_of_the_standard_library() {
    for base in ["", "/", "a", "a/", "/a/b", "."] {
        for part in ["", "x", "x/y", "/x", "..", "./x"] {
            let expected = std::path::Path::new(base).join(part);
            assert_eq!(join(base, part), expected.to_str().unwrap(), "{base:?} {part:?}");
        }
    }
}

#[test]
fn comparing_is_that_of_the_standard_library() {
    let all = [
        "", ".", "/", "//", "a", "./a", "a/", "a//", "a/.", "/a", "/a/", "//a", "/./a", "a/b",
        "a//b", "a/./b", "./a/b", "..", "../a", "a/..", "/a/b/",
    ];
    for x in all {
        for y in all {
            let expected = std::path::Path::new(x) == std::path::Path::new(y);
            assert_eq!(same_path(x, y), expected, "{x:?} {y:?}");
        }
    }
}

#[test]
fn directories_of_the_path() {
    assert!(on_path(Some("/usr/bin:/home/me/.local/bin/"), "/home/me/.local/bin"));
    assert!(!on_path(Some("/usr/bin:/bin"), "/home/me/.local/bin"));
    assert!(!on_path(Some(""), "/home/me/.local/bin"));
    assert!(!on_path(None, "/home/me/.local/bin"));
}

#[test]
fn the_root_above_the_working_directory() {
    let up = vec![at("/p/a", true, false), at("/p", true, true), at("/", true, true)];
    assert_eq!(find_project_root("/p/a", &up, &vec![]).unwrap(), "/p");
}

#[test]
fn the_root_above_the_binary() {
    let up = vec![at("/x", true, false)];
    let exe = vec![at("/p/bin/vello", false, false), at("/p/bin", false, true), at("/p", true, false)];
    assert_eq!(find_project_root("/x", &up, &exe).unwrap(), "/p");
}

#[test]
fn only_a_few_directories_are_looked_at() {
    let mut up: Vec<Candidate> = (0..6).map(|i| at(&format!("/{i}"), false, false)).collect();
    up.push(at("/p", true, true));
    let e = find_project_root("/0", &up, &vec![]).unwrap_err();
    assert_eq!(
        e,
        "could not locate the project root from /0. Set VELLO_PROJECT_ROOT or run vello from inside the project."
    );
    up.remove(0);
    assert_eq!(find_project_root("/0", &up, &vec![]).unwrap(), "/p");
}

#[test]
fn partial_files() {
    for dest in [
        "/m/x.gguf", "/m/a.b.gguf", "/m/x", "/m.d/x", "x.gguf", ".hidden", "/m/.hidden.gguf",
        "/m/x.gguf/", "/m/x.gguf/.", "/m/x.gguf//./", "/m/..", "..", ".", "", "/", "/.", "/m/", "./x.y",
        "/m/é.gguf", "a/b/c.d/e", "...", "x.", "/m/./",
    ] {
        let expected = std::path::Path::new(dest).with_extension("gguf.partial");
        assert_eq!(partial_path(dest), expected.to_str().unwrap(), "{dest}");
    }
    assert_eq!(partial_path("/m/Qwen3-8B-Q5_K_M.gguf"), "/m/Qwen3-8B-Q5_K_M.gguf.partial");
}
