use oreon_system_manager::process::{parse_dnf_list_output, parse_dnf_search_output};
use oreon_system_manager::pages::{
    decimal_string, dnf_request, drain_lines, driver_install_request, driver_package, first_selected,
    format_result, install_request, next_line, package_row_columns, remove_request,
    repo_toggle_request, search_request, take_complete_lines, take_remaining,
};

fn strings(v: &[&str]) -> Vec<String> {
    v.iter().map(|s| s.to_string()).collect()
}

#[test]
fn format_result_lines() {
    assert_eq!(format_result(Some(0)), "\n[Done]");
    assert_eq!(format_result(Some(1)), "\n[Failed \u{2014} exit code 1]");
    assert_eq!(format_result(Some(127)), "\n[Failed \u{2014} exit code 127]");
    assert_eq!(format_result(Some(-9)), "\n[Failed \u{2014} exit code -9]");
    assert_eq!(format_result(None), "\n[Failed \u{2014} process error]");
}

#[test]
fn decimal_extremes() {
    assert_eq!(decimal_string(0), "0");
    assert_eq!(decimal_string(i32::MAX), i32::MAX.to_string());
    assert_eq!(decimal_string(i32::MIN), i32::MIN.to_string());
    assert_eq!(decimal_string(1000), "1000");
}

#[test]
fn dnf_requests() {
    let r = dnf_request(strings(&["search", "vim"]));
    assert_eq!(r.program, "dnf");
    assert_eq!(r.args, strings(&["search", "vim"]));
    let r = dnf_request(strings(&["install", "-y", "vim"]));
    assert_eq!(r.program, "pkexec");
    assert_eq!(r.args, strings(&["dnf", "install", "-y", "vim"]));
    let r = dnf_request(Vec::new());
    assert_eq!(r.program, "pkexec");
    assert_eq!(r.args, strings(&["dnf"]));
}

#[test]
fn install_and_remove_requests() {
    let r = install_request("vim-enhanced.x86_64 : enhanced vi").unwrap();
    assert_eq!(r.program, "pkexec");
    assert_eq!(r.args, strings(&["dnf", "install", "-y", "vim-enhanced"]));
    let r = remove_request("vim.x86_64   2:9.1   updates").unwrap();
    assert_eq!(r.args, strings(&["dnf", "remove", "-y", "vim"]));
    assert!(install_request("   ").is_none());
    assert!(remove_request(".x86_64 : nameless").is_none());
}

#[test]
fn search_requests() {
    let r = search_request("  vim ").unwrap();
    assert_eq!(r.program, "dnf");
    assert_eq!(r.args, strings(&["--assumeyes", "search", "--quiet", "vim"]));
    assert!(search_request(" \t ").is_none());
}

#[test]
fn driver_requests() {
    assert_eq!(driver_package("NVIDIA graphics | akmod-nvidia"), "akmod-nvidia");
    assert_eq!(driver_package("no package column"), "");
    let r = driver_install_request("AMD graphics | mesa-dri-drivers").unwrap();
    assert_eq!(r.program, "pkexec");
    assert_eq!(r.args, strings(&["dnf", "install", "-y", "mesa-dri-drivers"]));
    assert!(driver_install_request("Unknown |   ").is_none());
}

#[test]
fn repo_toggle_requests() {
    let r = repo_toggle_request("fedora    Fedora 40    enabled");
    assert_eq!(r.program, "pkexec");
    assert_eq!(r.args, strings(&["dnf", "config-manager", "--disablerepo", "fedora"]));
    let r = repo_toggle_request("updates-testing    Test Updates    disabled");
    assert_eq!(r.args, strings(&["dnf", "config-manager", "--enablerepo", "updates-testing"]));
}

#[test]
fn row_columns() {
    let (a, b, c) = package_row_columns("vim.x86_64 : Vi IMproved : more");
    assert_eq!((a.as_str(), b.as_str(), c.as_str()), ("vim.x86_64", "Vi IMproved : more", ""));
    let (a, b, c) = package_row_columns("vim.x86_64   2:9.1.0   updates  extra");
    assert_eq!((a.as_str(), b.as_str(), c.as_str()), ("vim.x86_64", "2:9.1.0", "updates"));
    let (a, b, c) = package_row_columns("lonely");
    assert_eq!((a.as_str(), b.as_str(), c.as_str()), ("lonely", "", ""));
}

#[test]
fn selection() {
    assert_eq!(first_selected(&vec![false, true, true]), Some(1));
    assert_eq!(first_selected(&vec![false, false]), None);
    assert_eq!(first_selected(&Vec::new()), None);
}

#[test]
fn streamed_lines_are_not_lost() {
    let mut pending = String::new();
    let ready = take_complete_lines(&mut pending, "a.x86_64 : A\nb.x8");
    assert_eq!(ready, "a.x86_64 : A\n");
    assert_eq!(pending, "b.x8");
    let ready = take_complete_lines(&mut pending, "6_64 : B");
    assert_eq!(ready, "");
    assert_eq!(pending, "b.x86_64 : B");
    let ready = take_complete_lines(&mut pending, "\nc\nd");
    assert_eq!(ready, "b.x86_64 : B\nc\n");
    assert_eq!(pending, "d");
    assert_eq!(take_remaining(&mut pending), Some("d".to_string()));
    assert_eq!(pending, "");
    let mut blank = " \n ".to_string();
    assert_eq!(take_remaining(&mut blank), None);
    assert_eq!(blank, " \n ");
}

#[test]
fn next_line_takes_first_line() {
    let mut pending = "one\ntwo\nthree".to_string();
    assert_eq!(next_line(&mut pending), Some("one".to_string()));
    assert_eq!(next_line(&mut pending), Some("two".to_string()));
    assert_eq!(next_line(&mut pending), None);
    assert_eq!(pending, "three");
    let mut e = "\n".to_string();
    assert_eq!(next_line(&mut e), Some(String::new()));
    assert_eq!(e, "");
}

#[test]
fn drain_lines_takes_every_ended_line() {
    let mut pending = "par".to_string();
    assert_eq!(drain_lines(&mut pending, "tial
second

thi"), strings(&["partial", "second", ""]));
    assert_eq!(pending, "thi");
    assert_eq!(drain_lines(&mut pending, "rd"), Vec::<String>::new());
    assert_eq!(pending, "third");
}

#[test]
fn chunked_reading_finds_the_lines_of_the_whole_output() {
    let chunks = ["vim.x86_64 : V", "i
== x ==
gcc.x86", "_64 : G
", "tail.noarch : T"];
    let whole: String = chunks.concat();
    let mut pending = String::new();
    let mut found = Vec::new();
    for c in chunks {
        let ready = take_complete_lines(&mut pending, c);
        found.extend(parse_dnf_search_output(&ready));
    }
    found.extend(parse_dnf_search_output(&pending));
    assert_eq!(found, parse_dnf_search_output(&whole));
    assert_eq!(found.len(), 3);
}

#[test]
fn line_by_line_reading_finds_the_lines_of_the_whole_output() {
    let chunks = ["Available Packages
vim.x86_64  9.1", "  updates
gcc.x86_64 14 fedora", "
last.noarch 1 u"];
    let whole: String = chunks.concat();
    let mut pending = String::new();
    let mut found = Vec::new();
    for c in chunks {
        for line in drain_lines(&mut pending, c) {
            found.extend(parse_dnf_list_output(&line));
        }
    }
    found.extend(parse_dnf_list_output(&pending));
    assert_eq!(found, parse_dnf_list_output(&whole));
    assert_eq!(found.len(), 3);
}
