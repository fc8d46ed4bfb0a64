use oreon_system_manager::process::{
    extract_distrobox_name, extract_docker_name, extract_package_name, extract_repo_id,
    parse_distrobox_list_output, parse_dnf_list_output, parse_dnf_search_output,
    parse_docker_ps_output, parse_list_output, repo_is_enabled, route_message, PollAction,
    ProcessMessage, ProcessRequest,
};

#[test]
fn test_parse_dnf_search() {
    let input = "vim.x86_64 : Vi IMproved — enhanced vi editor\n=== Name Matched ===\nvim-enhanced.x86_64 : A version of the VIM editor\n";
    let result = parse_dnf_search_output(input);
    assert_eq!(result.len(), 2);
    assert!(result[0].contains("vim.x86_64"));
    assert!(result[1].contains("vim-enhanced.x86_64"));
}

#[test]
fn test_parse_list_output() {
    let input = "fedora    Fedora 40    enabled\nupdates    Updates    disabled\n\n";
    let result = parse_list_output(input);
    assert_eq!(result.len(), 2);
}

#[test]
fn test_extract_package_name() {
    assert_eq!(extract_package_name("vim.x86_64 : Vi IMproved"), "vim");
    assert_eq!(
        extract_package_name("vim-enhanced.x86_64 : enhanced vi"),
        "vim-enhanced"
    );
}

#[test]
fn test_extract_repo_id() {
    assert_eq!(extract_repo_id("fedora    Fedora 40    enabled"), "fedora");
    assert_eq!(
        extract_repo_id("updates-testing    Test Updates    disabled"),
        "updates-testing"
    );
}

#[test]
fn test_repo_is_enabled() {
    assert!(repo_is_enabled("fedora    Fedora 40    enabled"));
    assert!(!repo_is_enabled(
        "updates-testing    Test Updates    disabled"
    ));
}

#[test]
fn test_extract_docker_name() {
    assert_eq!(
        extract_docker_name("web-server\tUp 3 hours\tnotginx:latest"),
        "web-server"
    );
}

#[test]
fn test_extract_distrobox_name() {
    assert_eq!(
        extract_distrobox_name(
            "1   | fedora-toolbox  | running | registry.fedoraproject.org/fedora-toolbox:40"
        ),
        "fedora-toolbox"
    );
}

#[test]
fn dnf_search_skips_metadata_and_lines_without_separator() {
    let input = "Last metadata expiration check: 0:01:02 ago.\n  gcc.x86_64 : The GNU Compiler  \r\nno separator here\n\n=gcc : x\n";
    let result = parse_dnf_search_output(input);
    assert_eq!(result, vec!["gcc.x86_64 : The GNU Compiler".to_string()]);
}

#[test]
fn dnf_list_keeps_rows_with_three_columns_and_a_dot() {
    let input = "Available Packages\nvim.x86_64   2:9.1.0-1.fc40   updates\nshort.x86_64 1.0\nno dot here at all\nInstalled Packages\nLast metadata expiration check\n";
    let result = parse_dnf_list_output(input);
    assert_eq!(result, vec!["vim.x86_64   2:9.1.0-1.fc40   updates".to_string()]);
}

#[test]
fn list_output_skips_headers() {
    let input = "repo id   repo name   status\nRepo-id : x\nCONTAINER ID\nID | NAME\nfedora  Fedora  enabled\n";
    assert_eq!(parse_list_output(input), vec!["fedora  Fedora  enabled".to_string()]);
}

#[test]
fn docker_ps_keeps_every_non_empty_trimmed_line() {
    let input = "  web\tUp\timg  \n\n \t \nlast";
    assert_eq!(
        parse_docker_ps_output(input),
        vec!["web\tUp\timg".to_string(), "last".to_string()]
    );
}

#[test]
fn distrobox_list_skips_header_and_rule() {
    let input = "ID | NAME | STATUS | IMAGE\n--- | --- \n1 | box | running | img\n";
    assert_eq!(
        parse_distrobox_list_output(input),
        vec!["1 | box | running | img".to_string()]
    );
}

#[test]
fn empty_output_parses_to_nothing() {
    assert!(parse_dnf_search_output("").is_empty());
    assert!(parse_docker_ps_output("\n\n").is_empty());
}

#[test]
fn unicode_whitespace_separates_words() {
    // U+3000 IDEOGRAPHIC SPACE carries the White_Space property.
    assert_eq!(extract_repo_id("\u{3000}fedora\u{3000}Fedora"), "fedora");
    assert_eq!(extract_package_name("\u{a0}pkg.noarch x"), "pkg");
}

#[test]
fn extraction_edge_cases() {
    assert_eq!(extract_package_name(""), "");
    assert_eq!(extract_package_name("   "), "");
    assert_eq!(extract_package_name("nodot"), "nodot");
    assert_eq!(extract_repo_id(""), "");
    assert!(!repo_is_enabled(""));
    assert!(!repo_is_enabled("repo enabled now"));
    assert_eq!(extract_docker_name("  name  "), "name");
    assert_eq!(extract_distrobox_name("single-word rest"), "single-word");
    assert_eq!(extract_distrobox_name(""), "");
    assert_eq!(extract_distrobox_name("a|"), "");
}

#[test]
fn process_request_keeps_program_and_arguments() {
    let r = ProcessRequest::new("dnf", &["--assumeyes", "repolist", "all"]);
    assert_eq!(r.program, "dnf");
    assert_eq!(r.args, vec!["--assumeyes".to_string(), "repolist".to_string(), "all".to_string()]);
    let e = ProcessRequest::new("true", &[]);
    assert!(e.args.is_empty());
}

#[test]
fn stderr_is_never_list_data() {
    let m = ProcessMessage::Output { is_stdout: false, text: "oops".to_string() };
    match route_message(true, m) {
        PollAction::Output { is_list, text } => {
            assert!(!is_list);
            assert_eq!(text, "oops");
        }
        PollAction::Finish(_) => panic!("output routed as finish"),
    }
    let m = ProcessMessage::Output { is_stdout: true, text: "row".to_string() };
    match route_message(true, m) {
        PollAction::Output { is_list, .. } => assert!(is_list),
        PollAction::Finish(_) => panic!("output routed as finish"),
    }
    let m = ProcessMessage::Output { is_stdout: true, text: "row".to_string() };
    match route_message(false, m) {
        PollAction::Output { is_list, .. } => assert!(!is_list),
        PollAction::Finish(_) => panic!("output routed as finish"),
    }
    match route_message(true, ProcessMessage::Done(Some(3))) {
        PollAction::Finish(code) => assert_eq!(code, Some(3)),
        PollAction::Output { .. } => panic!("finish routed as output"),
    }
}

#[test]
fn parsing_in_chunks_at_line_ends_matches_parsing_whole() {
    let a = "vim.x86_64 : Vi\n=== Name Matched ===\n";
    let b = "  gcc.x86_64 : GNU\nlast.noarch : tail";
    let whole = format!("{}{}", a, b);
    let mut parts = parse_dnf_search_output(a);
    parts.extend(parse_dnf_search_output(b));
    assert_eq!(parse_dnf_search_output(&whole), parts);
    assert_eq!(parts.len(), 3);
}

#[test]
fn parsed_lines_are_trimmed_and_non_empty() {
    let input = " \t fedora  Fedora \r\n\n   \nupdates  Updates  \n";
    for line in parse_list_output(input) {
        assert!(!line.is_empty());
        assert_eq!(line.trim(), line);
    }
}

#[test]
fn package_name_keeps_dots_inside_the_name() {
    assert_eq!(
        extract_package_name("python3.11.x86_64 : Version 3.11 of the Python interpreter"),
        "python3.11"
    );
    assert_eq!(extract_package_name("qt5-qtbase.5.15.x86_64 2 x"), "qt5-qtbase.5.15");
    assert_eq!(extract_package_name(".x86_64 : nameless"), "");
}
