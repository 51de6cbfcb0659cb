use toolver::fsutil::{
    all_dirs, display_path, display_rel_path, eq_ignore_ascii_case, executable_mode,
    find_up_candidates, fs_error_message, is_executable, links_under, only_ignored_entries,
    replace_path, replace_paths_in_string, split_file_name, symlink_removes_first,
    which_candidates, FindUp, LinkSlot, WhichCache,
};
use toolver::path::{join, path_components, strip_prefix};

const HOME: &str = "/home/user";

#[test]
fn test_find_up() {
    let path = "/home/user/cwd";
    let filenames: Vec<String> = vec![".miserc", ".mise.toml", ".test-tool-versions"]
        .into_iter()
        .map(|s| s.to_string())
        .collect();
    let find_up = FindUp::new(path, &filenames).candidates();
    let pos = |p: &str| find_up.iter().position(|c| c == p).unwrap();
    assert_eq!(find_up[0], "/home/user/cwd/.test-tool-versions");
    assert!(pos("/home/user/cwd/.test-tool-versions") < pos("/home/user/.test-tool-versions"));
    assert_eq!(find_up.last().unwrap(), "/.miserc");
}

#[test]
fn test_find_up_2() {
    let path = join(HOME, "fixtures");
    let filenames = vec![".test-tool-versions".to_string()];
    let result = find_up_candidates(&path, &filenames);
    assert_eq!(result[0], "/home/user/fixtures/.test-tool-versions");
    assert_eq!(result[1], join(HOME, ".test-tool-versions"));
    assert_eq!(result.len(), 4);
}

#[test]
fn test_display_path() {
    let path = join(HOME, "cwd");
    assert_eq!(display_path(&path, HOME), "~/cwd");
    let path = join(&join("/tmp", "home/user"), "cwd");
    assert_eq!(display_path(&path, HOME), path);
}

#[test]
fn test_replace_path() {
    assert_eq!(replace_path("~/cwd", HOME), join(HOME, "cwd"));
    assert_eq!(replace_path("/cwd", HOME), "/cwd");
}

#[test]
fn display_edge_cases() {
    assert_eq!(display_path("/home/user2/x", HOME), "/home/user2/x");
    assert_eq!(display_path("/home/user", HOME), "~");
    assert_eq!(display_path("/x/y", "/"), "/x/y");
    assert_eq!(display_rel_path("/work/app/src/main.rs", "/work/app", HOME), "./src/main.rs");
    assert_eq!(display_rel_path("/home/user/other", "/work/app", HOME), "~/other");
    assert_eq!(display_rel_path("/work/app", "/work/app", HOME), "./");
}

#[test]
fn home_replaced_in_text() {
    assert_eq!(
        replace_paths_in_string("installed to /home/user/.local and /home/user/bin", HOME),
        "installed to ~/.local and ~/bin"
    );
    assert_eq!(replace_paths_in_string("nothing here", HOME), "nothing here");
    assert_eq!(replace_paths_in_string("abc", ""), "abc");
}

#[test]
fn components_follow_std() {
    let c = |p: &str| path_components(p);
    assert_eq!(c("a//b/./c/"), vec!["a", "b", "c"]);
    assert_eq!(c("./a"), vec![".", "a"]);
    assert_eq!(c("/a/../b"), vec!["/", "a", "..", "b"]);
    assert_eq!(c(""), Vec::<String>::new());
    assert_eq!(c("mydir/"), vec!["mydir"]);
    assert_eq!(strip_prefix("/a/b/c", "/a"), Some("b/c".to_string()));
    assert_eq!(strip_prefix("/ab/c", "/a"), None);
    assert_eq!(join("/a/", "b"), "/a/b");
    assert_eq!(join("", "b"), "b");
    assert_eq!(join("/a", "/b"), "/b");
}

#[test]
fn split_names() {
    assert_eq!(split_file_name("/dl/node-v20.tar.gz"), ("node-v20".to_string(), "tar.gz".to_string()));
    assert_eq!(split_file_name("README"), ("README".to_string(), "".to_string()));
    assert_eq!(split_file_name("dir/.hidden"), ("".to_string(), "hidden".to_string()));
}

#[test]
fn search_dirs_of_relative_path() {
    assert_eq!(all_dirs("/a/b"), vec!["/a/b", "/a", "/"]);
    assert_eq!(all_dirs("a/b"), vec!["a/b", "a", ""]);
    let c = find_up_candidates("a", &vec!["x".to_string(), "y".to_string()]);
    assert_eq!(c, vec!["a/x", "a/y", "x", "y"]);
}

#[test]
fn symlink_replacement_steps() {
    assert!(symlink_removes_first(&LinkSlot::File));
    assert!(symlink_removes_first(&LinkSlot::Symlink("/old".to_string())));
    assert!(!symlink_removes_first(&LinkSlot::Missing));
    assert!(!symlink_removes_first(&LinkSlot::Directory));
}

#[test]
fn executable_bits() {
    assert!(is_executable(0o755));
    assert!(is_executable(0o100));
    assert!(!is_executable(0o644));
    assert_eq!(executable_mode(0o644), 0o755);
    assert_eq!(executable_mode(0o100600), 0o100711);
}

#[test]
fn error_messages_name_verb_and_path() {
    assert_eq!(fs_error_message("rm -rf", "/tmp/x"), "failed rm -rf: /tmp/x");
}

#[test]
fn which_looks_in_each_dir() {
    let dirs = vec!["/usr/bin".to_string(), "/bin/".to_string()];
    assert_eq!(which_candidates("ls", &dirs), vec!["/usr/bin/ls", "/bin/ls"]);
}

#[test]
fn which_cache_remembers() {
    let mut cache = WhichCache::new();
    assert_eq!(cache.get("node"), None);
    cache.insert("node", Some("/usr/bin/node".to_string()));
    cache.insert("deno", None);
    assert_eq!(cache.get("node"), Some(Some("/usr/bin/node".to_string())));
    assert_eq!(cache.get("deno"), Some(None));
    cache.insert("node", Some("/opt/node".to_string()));
    assert_eq!(cache.get("node"), Some(Some("/opt/node".to_string())));
}

#[test]
fn links_pointing_under_prefix() {
    let links = vec![
        ("/s/a".to_string(), "/installs/node/20/bin/node".to_string()),
        ("/s/b".to_string(), "/installs/nodejs/bin".to_string()),
        ("/s/c".to_string(), "/installs/node".to_string()),
    ];
    assert_eq!(links_under(&links, "/installs/node"), vec!["/s/a", "/s/c"]);
}

#[test]
fn ignored_entries() {
    let ignore = vec![".DS_Store".to_string(), "Thumbs.db".to_string()];
    assert!(only_ignored_entries(&vec![".ds_store".to_string()], &ignore));
    assert!(only_ignored_entries(&vec![], &ignore));
    assert!(!only_ignored_entries(&vec!["THUMBS.DB".to_string(), "a".to_string()], &ignore));
    assert!(eq_ignore_ascii_case("AbC", "aBc"));
    assert!(!eq_ignore_ascii_case("abc", "abd"));
}
