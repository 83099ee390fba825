use smart_file_search::scanner::{is_hidden, is_ignored, is_wanted_file};
use smart_file_search::selection::{decide_selection, read_selection, Selection};

#[test]
fn names_with_a_leading_dot_are_hidden() {
    assert!(is_hidden(Some(".git")));
    assert!(is_hidden(Some(".")));
    assert!(is_hidden(Some(".bashrc")));
    assert!(!is_hidden(Some("notes.txt")));
    assert!(!is_hidden(Some("a.b")));
    assert!(!is_hidden(Some("")));
}

#[test]
fn unreadable_names_are_not_hidden() {
    assert!(!is_hidden(None));
}

#[test]
fn hidden_entries_are_ignored_whatever_they_are() {
    assert!(is_ignored(".cache", true));
    assert!(is_ignored(".env", false));
    assert!(is_ignored(".git", true));
}

#[test]
fn build_and_system_folders_are_ignored() {
    for name in [
        "node_modules",
        "target",
        "venv",
        "bin",
        "obj",
        "Library",
        "Applications",
        "Windows",
        "Program Files",
    ] {
        assert!(is_ignored(name, true), "{}", name);
        assert!(!is_ignored(name, false), "{}", name);
    }
}

#[test]
fn other_folders_are_scanned() {
    assert!(!is_ignored("src", true));
    assert!(!is_ignored("Target", true));
    assert!(!is_ignored("targets", true));
    assert!(!is_ignored("node_module", true));
    assert!(!is_ignored("", true));
    assert!(!is_ignored("library", true));
}

#[test]
fn files_with_kept_extensions_are_wanted() {
    for ext in [
        "pdf", "docx", "doc", "txt", "md", "png", "jpg", "jpeg", "webp", "xlsx", "csv", "pptx",
        "rs", "py", "js", "html", "css",
    ] {
        assert!(is_wanted_file(true, Some(ext)), "{}", ext);
        assert!(!is_wanted_file(false, Some(ext)), "{}", ext);
    }
}

#[test]
fn extension_case_does_not_matter() {
    assert!(is_wanted_file(true, Some("PDF")));
    assert!(is_wanted_file(true, Some("Jpeg")));
    assert!(is_wanted_file(true, Some("hTmL")));
}

#[test]
fn other_extensions_and_none_are_not_wanted() {
    assert!(!is_wanted_file(true, None));
    assert!(!is_wanted_file(true, Some("")));
    assert!(!is_wanted_file(true, Some("exe")));
    assert!(!is_wanted_file(true, Some("pd")));
    assert!(!is_wanted_file(true, Some("pdfx")));
    assert!(!is_wanted_file(true, Some("tar.gz")));
    assert!(!is_wanted_file(true, Some("p`f")));
    assert!(!is_wanted_file(true, Some("R[")));
}

#[test]
fn decide_selection_covers_each_answer() {
    assert_eq!(decide_selection(None, 3), Selection::NotANumber);
    assert_eq!(decide_selection(Some(0), 3), Selection::Cancelled);
    assert_eq!(decide_selection(Some(1), 3), Selection::Open(0));
    assert_eq!(decide_selection(Some(3), 3), Selection::Open(2));
    assert_eq!(decide_selection(Some(4), 3), Selection::OutOfRange);
    assert_eq!(decide_selection(Some(1), 0), Selection::OutOfRange);
    assert_eq!(decide_selection(Some(0), 0), Selection::Cancelled);
    assert_eq!(decide_selection(Some(usize::MAX), usize::MAX), Selection::Open(usize::MAX - 1));
}

#[test]
fn read_selection_trims_and_reads_decimal_numbers() {
    assert_eq!(read_selection("2\n", 3), Selection::Open(1));
    assert_eq!(read_selection("  3 \r\n", 3), Selection::Open(2));
    assert_eq!(read_selection("\t+1", 3), Selection::Open(0));
    assert_eq!(read_selection("007", 9), Selection::Open(6));
    assert_eq!(read_selection("0\n", 3), Selection::Cancelled);
    assert_eq!(read_selection("+0", 3), Selection::Cancelled);
    assert_eq!(read_selection("4\n", 3), Selection::OutOfRange);
    assert_eq!(read_selection("12", 3), Selection::OutOfRange);
}

#[test]
fn read_selection_refuses_what_is_no_number() {
    assert_eq!(read_selection("", 3), Selection::NotANumber);
    assert_eq!(read_selection("   \n", 3), Selection::NotANumber);
    assert_eq!(read_selection("+", 3), Selection::NotANumber);
    assert_eq!(read_selection("-1", 3), Selection::NotANumber);
    assert_eq!(read_selection("-0", 3), Selection::NotANumber);
    assert_eq!(read_selection("two", 3), Selection::NotANumber);
    assert_eq!(read_selection("1 2", 3), Selection::NotANumber);
    assert_eq!(read_selection("1.0", 3), Selection::NotANumber);
    assert_eq!(read_selection("++1", 3), Selection::NotANumber);
    assert_eq!(read_selection("2x", 3), Selection::NotANumber);
}

#[test]
fn read_selection_agrees_with_the_standard_parser() {
    for text in ["1", " 2 ", "+3", "0", "", "+", "-4", "99999999999999999999999", "18446744073709551615", "18446744073709551616", "0000000000000000000000001", "a", "5\n"] {
        let expected = decide_selection(text.trim().parse::<usize>().ok(), 5);
        assert_eq!(read_selection(text, 5), expected, "{:?}", text);
    }
}

#[test]
fn read_selection_holds_the_greatest_number() {
    let text = format!("{}", usize::MAX);
    assert_eq!(read_selection(&text, usize::MAX), Selection::Open(usize::MAX - 1));
    assert_eq!(read_selection(&text, 3), Selection::OutOfRange);
    let beyond = format!("{}0", usize::MAX);
    assert_eq!(read_selection(&beyond, usize::MAX), Selection::NotANumber);
}

#[test]
fn read_selection_trims_white_space_of_any_script() {
    assert_eq!(read_selection("\u{a0}2\u{a0}", 3), Selection::Open(1));
    assert_eq!(read_selection("\u{3000}+1\u{2003}\n", 3), Selection::Open(0));
    assert_eq!(read_selection("\u{85}\u{1680}\u{2028}0\u{2029}\u{202f}\u{205f}", 3), Selection::Cancelled);
    assert_eq!(read_selection(" \u{200a}\t3\u{2000} ", 3), Selection::Open(2));
    assert_eq!(read_selection("\u{a0}", 3), Selection::NotANumber);
    assert_eq!(read_selection("\u{2003}\u{3000}", 3), Selection::NotANumber);
}

#[test]
fn read_selection_keeps_what_is_no_white_space() {
    assert_eq!(read_selection("\u{200b}2", 3), Selection::NotANumber);
    assert_eq!(read_selection("2\u{feff}", 3), Selection::NotANumber);
    assert_eq!(read_selection("\u{2020}2", 3), Selection::NotANumber);
    assert_eq!(read_selection("1\u{a0}2", 3), Selection::NotANumber);
    assert_eq!(read_selection("\u{180e}1", 3), Selection::NotANumber);
    assert_eq!(read_selection("\u{e9}1", 3), Selection::NotANumber);
}

#[test]
fn read_selection_agrees_with_the_standard_trim_on_every_character() {
    let mut spaces = 0;
    for code in 0u32..=0x10FFFF {
        let c = match char::from_u32(code) {
            Some(c) => c,
            None => continue,
        };
        if c.is_whitespace() {
            spaces += 1;
        }
        let mut text = String::new();
        text.push(c);
        text.push('2');
        text.push(c);
        let expected = decide_selection(text.trim().parse::<usize>().ok(), 5);
        assert_eq!(read_selection(&text, 5), expected, "U+{:04X}", code);
    }
    assert_eq!(spaces, 25);
}
