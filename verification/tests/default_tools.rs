use miyu::i18n::Language;
use miyu::path::{expand_path, join_path, same_path_exec, path_under_exec};
use miyu::tools::default_tools::{
    clip_output_with_meta, ensure_safe_trash_target, limited_lines, looks_binary, max_results,
    missing_argument_message, no_match_report, prepare_search_path, required,
    search_exclude_args, TrashRefusal, TOOL_SUMMARY_PREFIX,
};

#[test]
fn root_search_uses_protective_excludes() {
    let root = "/";
    assert!(prepare_search_path(root).is_some());
    let args = search_exclude_args(root).join(" ");
    assert!(args.contains("--glob=!proc/**"));
    assert!(args.contains("--glob=!usr/**"));
}

#[test]
fn broad_system_roots_are_refused_and_others_keep_only_git_excluded() {
    assert!(prepare_search_path("/usr").is_none());
    assert!(prepare_search_path("/var/").is_none());
    assert!(prepare_search_path("//etc/.").is_none());
    assert_eq!(prepare_search_path("/usr/share").as_deref(), Some("/usr/share"));
    assert_eq!(search_exclude_args("/home/u"), vec!["--glob=!**/.git/**".to_string()]);
    assert_eq!(search_exclude_args("/").len(), 13);
}

#[test]
fn trash_path_rejects_workspace_root() {
    let workspace = "/home/u/project";
    assert_eq!(
        ensure_safe_trash_target(workspace, workspace, Some("/home/u")),
        Err(TrashRefusal::WorkspaceRoot)
    );
}

#[test]
fn trash_targets_exclude_system_home_and_trash() {
    let home = Some("/home/u");
    let ws = "/work";
    assert_eq!(ensure_safe_trash_target("/", ws, home), Err(TrashRefusal::DangerousSystemPath));
    assert_eq!(ensure_safe_trash_target("/usr/", ws, home), Err(TrashRefusal::DangerousSystemPath));
    assert_eq!(ensure_safe_trash_target("/home/u", ws, home), Err(TrashRefusal::HomeDirectory));
    assert_eq!(
        ensure_safe_trash_target("/home/u/.local/share/Trash", ws, home),
        Err(TrashRefusal::TrashDirectory)
    );
    assert_eq!(
        ensure_safe_trash_target("/home/u/.local/share/Trash/files/x", ws, home),
        Err(TrashRefusal::TrashDirectory)
    );
    assert_eq!(ensure_safe_trash_target("/home/u/notes.txt", ws, home), Ok(()));
    assert_eq!(ensure_safe_trash_target("/home/u", ws, None), Ok(()));
}

#[test]
fn binary_samples_are_detected() {
    assert!(looks_binary(&[0, 1, 2, 3]));
    assert!(!looks_binary(b"hello\n\tworld\r\n"));
    assert!(!looks_binary(b""));
    // 3 of 10 control bytes is not more than 30%; 4 of 10 is.
    assert!(!looks_binary(&[1, 1, 1, b'a', b'a', b'a', b'a', b'a', b'a', b'a']));
    assert!(looks_binary(&[1, 1, 1, 1, b'a', b'a', b'a', b'a', b'a', b'a']));
}

#[test]
fn search_limits_and_required_arguments() {
    assert_eq!(max_results(None), 100);
    assert_eq!(max_results(Some(0)), 1);
    assert_eq!(max_results(Some(42)), 42);
    assert_eq!(max_results(Some(9000)), 500);
    assert_eq!(required(Some("  x ")).as_deref(), Some("x"));
    assert_eq!(required(Some("   ")), None);
    assert_eq!(required(None), None);
    assert_eq!(missing_argument_message(Language::English, "path"), "required argument missing: path");
    assert_eq!(missing_argument_message(Language::Chinese, "path"), "缺少必需参数: path");
    assert_eq!(TOOL_SUMMARY_PREFIX, "__tool_summary__");
}

#[test]
fn listings_are_cut_to_their_first_lines() {
    assert_eq!(limited_lines("a\nb\r\nc\n", 5, Language::English), "a\nb\nc");
    assert_eq!(
        limited_lines("a\nb\nc", 2, Language::English),
        "a\nb\n[truncated to the first 2 results]"
    );
    assert_eq!(limited_lines("a\nb\nc", 2, Language::Chinese), "a\nb\n[已截断到前 2 条结果]");
    assert_eq!(limited_lines("", 3, Language::English), "");
}

#[test]
fn ripgrep_no_match_is_a_plain_result() {
    assert_eq!(no_match_report(Some(1), true, "", Language::English).as_deref(), Some("no matches"));
    assert_eq!(
        no_match_report(Some(1), true, " warn \n", Language::Chinese).as_deref(),
        Some("无匹配\n[stderr]\nwarn")
    );
    assert_eq!(no_match_report(Some(1), false, "", Language::English), None);
    assert_eq!(no_match_report(Some(2), true, "", Language::English), None);
    assert_eq!(no_match_report(None, true, "", Language::English), None);
}

#[test]
fn long_output_keeps_its_tail() {
    let short = clip_output_with_meta("  hello  ", 10, Language::English);
    assert_eq!(short.text, "hello");
    assert!(!short.truncated);
    assert_eq!(short.omitted_chars, 0);
    let long = clip_output_with_meta("abcdef\n\nxyz", 4, Language::English);
    assert!(long.truncated);
    assert_eq!(long.omitted_chars, 7);
    assert_eq!(long.text, "...[omitted 7 chars, showing tail]\nxyz");
    let zh = clip_output_with_meta("一二三四五", 2, Language::Chinese);
    assert_eq!(zh.text, "...[已省略 3 字符，显示尾部]\n四五");
}

#[test]
fn paths_compare_by_components_and_join_like_pathbuf() {
    assert!(same_path_exec("/a/b/", "/a//b/."));
    assert!(!same_path_exec("a/b", "/a/b"));
    assert!(!same_path_exec("./a", "a"));
    assert!(path_under_exec("/a/b/c", "/a/b"));
    assert!(!path_under_exec("/a/bc", "/a/b"));
    assert_eq!(join_path("/home/u", "x"), "/home/u/x");
    assert_eq!(join_path("/home/u/", "x"), "/home/u/x");
    assert_eq!(join_path("", "x"), "x");
    assert_eq!(join_path("/home/u", "/etc"), "/etc");
    assert_eq!(expand_path(" ~/notes ", Some("/home/u"), "/work"), "/home/u/notes");
    assert_eq!(expand_path("~/notes", None, "/work"), "/work/~/notes");
    assert_eq!(expand_path("/abs/x", Some("/home/u"), "/work"), "/abs/x");
    assert_eq!(expand_path("rel/x", Some("/home/u"), "/work"), "/work/rel/x");
}
