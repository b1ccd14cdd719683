use svn_filter::blame::render_blame;
use svn_filter::commit::{commit_recognizes_any, commit_refiltering_stable, render_commit};
use svn_filter::diff::{render_diff, DiffLineMatches};
use svn_filter::log::render_log;
use svn_filter::status::{render_status, status_recognizes_any};
use svn_filter::update::{render_update, update_recognizes_any};
use svn_filter::add::{add_recognizes_any, render_add};
use svn_filter::{
    apply_filter, extract_xml_text, filter_add, filter_blame, filter_commit, filter_diff,
    filter_info, filter_log, filter_status, filter_update, run_add, run_blame, run_commit,
    run_diff, run_info, run_log, run_other, run_status, run_update, SvnAction, SvnError,
    SvnFilter,
};

fn strings(v: &[&str]) -> Vec<String> {
    v.iter().map(|s| s.to_string()).collect()
}

fn caps(groups: &[Option<&str>]) -> Option<Vec<Option<String>>> {
    Some(groups.iter().map(|g| g.map(|s| s.to_string())).collect())
}

// -- extract_xml_text --

#[test]
fn xml_text_found_and_trimmed() {
    assert_eq!(
        extract_xml_text("<url>  https://x/y </url>", "url"),
        Some("https://x/y".to_string())
    );
}

#[test]
fn xml_text_missing_open_or_close() {
    assert_eq!(extract_xml_text("<url>https://x/y", "url"), None);
    assert_eq!(extract_xml_text("https://x/y</url>", "url"), None);
    assert_eq!(extract_xml_text("<author>me</author>", "url"), None);
}

#[test]
fn xml_text_roundtrip_law_example() {
    assert_eq!(extract_xml_text("<date> 2024-01-15 </date>", "date"), Some("2024-01-15".to_string()));
    assert_eq!(extract_xml_text("<e></e>", "e"), Some(String::new()));
}

// -- status --

#[test]
fn status_unrecognized_lines_are_dropped() {
    let input = "M       a.rs\nPerforming status on external item\nA       b.rs\n";
    assert_eq!(filter_status(input), "M a.rs\nA b.rs\n");
}

#[test]
fn status_two_columns_run_together() {
    assert_eq!(filter_status("MM      both.rs\n"), "MM both.rs\n");
}

#[test]
fn status_passthrough_when_nothing_recognized() {
    let input = "svn: E155007: '/tmp' is not a working copy\n";
    assert_eq!(filter_status(input), input);
}

#[test]
fn status_crlf_lines() {
    assert_eq!(filter_status("M       a.rs\r\n?       b\r\n"), "M a.rs\n? b\n");
}

#[test]
fn render_status_from_given_captures() {
    let c = vec![
        caps(&[Some(" M  x.rs"), Some(" "), Some("M"), Some("x.rs")]),
        None,
        caps(&[Some("A  y"), Some("A"), Some(" "), Some("y")]),
    ];
    assert_eq!(render_status("ignored\n", &c), "M x.rs\nA y\n");
    assert_eq!(render_status("raw\n", &vec![None]), "raw\n");
}

// -- log --

#[test]
fn log_revision_attribute_on_next_line() {
    let input = "<logentry\n   revision=\"3\">\n<author>ann</author>\n<date>2023-05-06T01:02:03.000000Z</date>\n<msg>Initial import</msg>\n</logentry>\n";
    assert_eq!(filter_log(input), "r3 ann 2023-05-06 Initial import\n");
}

#[test]
fn log_message_with_attributes_strips_closing_tag() {
    let input = "<logentry revision=\"9\">\n<author>bo</author>\n<date>2023-01-01T00:00:00Z</date>\n<msg xml:space=\"preserve\">Subject line</msg>\n</logentry>\n";
    assert_eq!(filter_log(input), "r9 bo 2023-01-01 Subject line\n");
}

#[test]
fn log_body_line_closing_tag_removed() {
    let input = "<logentry revision=\"4\">\n<author>cy</author>\n<date>2023-02-02T00:00:00Z</date>\n<msg>\nFirst body line</msg>\n</logentry>\n";
    // the bare `<msg>` line counts as an empty first message line
    assert_eq!(filter_log(input), "r4 cy 2023-02-02 \n");
}

#[test]
fn log_entry_without_revision_not_reported() {
    let input = "<logentry>\n<author>x</author>\n</logentry>\n<logentry revision=\"2\">\n<author>y</author>\n</logentry>\n";
    assert_eq!(filter_log(input), "r2 y  \n");
}

#[test]
fn log_partial_xml_falls_back() {
    let input = "<?xml version=\"1.0\"?>\n<log>\nsvn: E170013: Unable to connect\n";
    assert_eq!(filter_log(input), input);
}

#[test]
fn render_log_uses_given_cleaned_text() {
    let input = "<logentry revision=\"5\">\n<msg>\nbody text</msg>\n</logentry>\n";
    let cleaned = strings(&["", "", "body text", ""]);
    assert_eq!(render_log(input, &cleaned), "r5   \n");
    let input = "<logentry revision=\"5\">\n<msg xml:space=\"x\">head\nbody</msg>\n</logentry>\n";
    let cleaned = strings(&["", "head", "body", ""]);
    assert_eq!(render_log(input, &cleaned), "r5   head\n");
    let input = "<logentry revision=\"5\">\nstray text\n</logentry>\n";
    let cleaned = strings(&["", "stray text", ""]);
    assert_eq!(render_log(input, &cleaned), "r5   \n");
}

// -- diff --

#[test]
fn diff_short_separator_is_kept() {
    let input = "=====\n";
    assert_eq!(filter_diff(input), "=====\n");
}

#[test]
fn diff_marker_without_paren_suffix_kept() {
    assert_eq!(filter_diff("--- a.rs\n"), "--- a.rs\n");
}

#[test]
fn diff_repeated_marker_prefix_stripped() {
    assert_eq!(filter_diff("--- --- odd.rs  (revision 1)\n"), "--- odd.rs\n");
}

#[test]
fn render_diff_from_given_matches() {
    let m = |i, s, mi, p| DiffLineMatches { index_header: i, separator: s, minus: mi, plus: p };
    let input = "Index: a\n--- a  (revision 1)\n+++ a  (working copy)\nctx\n";
    let ms = vec![
        m(true, false, false, false),
        m(false, false, true, false),
        m(false, false, false, true),
        m(false, false, false, false),
    ];
    assert_eq!(render_diff(input, &ms), "--- a\n+++ a\nctx\n");
}

#[test]
fn diff_empty_when_only_headers() {
    let sep = "=".repeat(67);
    let input = format!("Index: a.rs\n{}\n", sep);
    assert_eq!(filter_diff(&input), "");
}

// -- info --

#[test]
fn info_revision_on_own_line() {
    let input = "<entry\n   kind=\"dir\"\n   revision=\"77\">\n<url>https://h/r</url>\n<commit\n   revision=\"70\">\n<author>dd</author>\n<date>2022-02-02T00:00:00Z</date>\n</commit>\n</entry>\n";
    assert_eq!(filter_info(input), "URL:      https://h/r\nRevision: 77\nLast:     70 dd 2022-02-02\n");
}

#[test]
fn info_last_without_author() {
    let input = "<entry revision=\"5\">\n<commit revision=\"4\">\n</commit>\n</entry>\n";
    assert_eq!(filter_info(input), "Revision: 5\nLast:     4\n");
}

#[test]
fn info_error_text_falls_back() {
    let input = "svn: warning: W155010: The node '/x' was not found.\n";
    assert_eq!(filter_info(input), input);
}

// -- blame --

#[test]
fn blame_uncommitted_dash_lines() {
    assert_eq!(filter_blame("     -          -   local edit\n"), "- - local edit\n");
}

#[test]
fn blame_unmatched_line_kept() {
    assert_eq!(filter_blame("Skipping binary file\n"), "Skipping binary file\n");
}

#[test]
fn render_blame_from_given_captures() {
    let c = vec![caps(&[Some("  1 u x"), Some("1"), Some("u"), Some("x")]), None];
    assert_eq!(render_blame("  1 u x\nplain\n", &c), "1 u x\nplain\n");
}

// -- add --

#[test]
fn add_lowercase_and_lock_statuses() {
    assert_eq!(filter_add("a     bin.dat\nL     locked.rs\n"), "a  bin.dat\nL  locked.rs\n");
}

#[test]
fn add_passthrough_when_nothing_added() {
    let input = "svn: warning: W150002: already under version control\n";
    assert_eq!(filter_add(input), input);
}

#[test]
fn render_add_from_given_matches() {
    assert_eq!(render_add("A   x.rs  \nother\n", &vec![true, false]), "A  x.rs\n");
    assert_eq!(render_add("other\n", &vec![false]), "other\n");
}

// -- commit --

#[test]
fn commit_keeps_only_revision_line() {
    let input = "Sending        a.rs\nCommitted revision 7.\n";
    assert_eq!(filter_commit(input), "Committed revision 7.\n");
}

#[test]
fn render_commit_from_given_matches() {
    assert_eq!(render_commit("x\ny\n", &vec![false, true]), "y\n");
    assert_eq!(render_commit("x\ny\n", &vec![false, false]), "x\ny\n");
}

// -- update --

#[test]
fn update_at_revision_form() {
    assert_eq!(filter_update("Updating '.':\nAt revision 42.\n"), "Updated to r42\n");
}

#[test]
fn update_conflict_and_merge_actions() {
    assert_eq!(filter_update("C    c.rs\nG    g.rs\n"), "C  c.rs\nG  g.rs\n");
}

#[test]
fn render_update_from_given_captures() {
    let action = vec![caps(&[Some("U x"), Some("U"), Some("x")]), None, None];
    let updated = vec![None, caps(&[Some("At revision 3"), Some("3")]), None];
    assert_eq!(render_update("a\nb\nc\n", &action, &updated), "U  x\nUpdated to r3\n");
}

// -- laws on concrete values --

#[test]
fn nonempty_input_never_gives_empty_output() {
    let input = "noise\n";
    for f in [
        SvnFilter::Status,
        SvnFilter::Log,
        SvnFilter::Info,
        SvnFilter::Blame,
        SvnFilter::Add,
        SvnFilter::Commit,
        SvnFilter::Update,
    ] {
        assert!(!apply_filter(f, input).is_empty());
    }
}

#[test]
fn apply_filter_dispatches() {
    assert_eq!(apply_filter(SvnFilter::Commit, "Committed revision 1.\n"), "Committed revision 1.\n");
    assert_eq!(apply_filter(SvnFilter::Diff, "Index: x\n"), "");
    assert_eq!(apply_filter(SvnFilter::Status, "M       z\n"), "M z\n");
}

// -- commands --

fn filtered_parts(a: SvnAction) -> (Vec<String>, String, String, SvnFilter, String) {
    match a {
        SvnAction::Filtered { args, label, args_display, filter, tee_label } => {
            (args, label, args_display, filter, tee_label)
        }
        SvnAction::Passthrough { .. } => panic!("expected a filtered run"),
    }
}

#[test]
fn run_status_command_line() {
    let (args, label, shown, filter, tee) = filtered_parts(run_status(&strings(&["-q", "dir"]), 0));
    assert_eq!(args, strings(&["status", "-q", "dir"]));
    assert_eq!(label, "svn status");
    assert_eq!(shown, "-q dir");
    assert_eq!(filter, SvnFilter::Status);
    assert_eq!(tee, "svn_status");
}

#[test]
fn run_log_adds_xml_once() {
    let (args, label, shown, filter, tee) =
        filtered_parts(run_log(&strings(&["--xml", "-l", "5", "--xml"]), 0));
    assert_eq!(args, strings(&["log", "--xml", "-l", "5"]));
    assert_eq!(label, "svn log");
    assert_eq!(shown, "--xml -l 5 --xml");
    assert_eq!(filter, SvnFilter::Log);
    assert_eq!(tee, "svn_log");
}

#[test]
fn run_info_adds_xml() {
    let (args, _, shown, filter, tee) = filtered_parts(run_info(&strings(&["wc"]), 1));
    assert_eq!(args, strings(&["info", "--xml", "wc"]));
    assert_eq!(shown, "wc");
    assert_eq!(filter, SvnFilter::Info);
    assert_eq!(tee, "svn_info");
}

#[test]
fn run_diff_skips_deleted() {
    let (args, label, shown, filter, _) = filtered_parts(run_diff(&[], 0));
    assert_eq!(args, strings(&["diff", "--no-diff-deleted"]));
    assert_eq!(label, "svn diff");
    assert_eq!(shown, "");
    assert_eq!(filter, SvnFilter::Diff);
}

#[test]
fn run_other_subcommands_command_lines() {
    assert_eq!(filtered_parts(run_blame(&strings(&["f"]), 0)).0, strings(&["blame", "f"]));
    assert_eq!(filtered_parts(run_add(&strings(&["f"]), 0)).0, strings(&["add", "f"]));
    assert_eq!(
        filtered_parts(run_commit(&strings(&["-m", "msg x"]), 0)).2,
        "-m msg x".to_string()
    );
    assert_eq!(filtered_parts(run_update(&[], 0)).3, SvnFilter::Update);
}

#[test]
fn run_other_passthrough_and_refusal() {
    match run_other(&strings(&["cleanup", "."]), 2) {
        Ok(SvnAction::Passthrough { args, verbose }) => {
            assert_eq!(args, strings(&["cleanup", "."]));
            assert_eq!(verbose, 2);
        }
        _ => panic!("expected a passthrough run"),
    }
    match run_other(&[], 0) {
        Err(e) => {
            assert_eq!(e, SvnError::NoSubcommand);
            assert_eq!(e.message(), "svn: no subcommand specified");
        }
        Ok(_) => panic!("expected a refusal"),
    }
}

#[test]
fn commit_filtering_twice_is_filtering_once() {
    let input = "Sending        a.rs\nTransmitting file data .done\nCommitted revision 12.\n";
    let once = filter_commit(input);
    assert_eq!(filter_commit(&once), once);
    let nothing = "Transmitting file data .done\n";
    assert_eq!(filter_commit(&filter_commit(nothing)), filter_commit(nothing));
}

#[test]
fn crlf_and_unterminated_last_line() {
    assert_eq!(render_commit("x\r\ny", &vec![true, true]), "x\ny\n");
    assert_eq!(filter_blame("plain\r\nlast"), "plain\nlast\n");
}

#[test]
fn log_verbose_paths_are_not_the_message() {
    let input = "<logentry\n   revision=\"20\">\n<author>harry</author>\n<date>2003-06-29T19:42:39.244463Z</date>\n<paths>\n<path\n   action=\"M\"\n   kind=\"file\">/trunk/foo</path>\n</paths>\n<msg>Tweak foo</msg>\n</logentry>";
    assert_eq!(filter_log(input), "r20 harry 2003-06-29 Tweak foo\n");
}

#[test]
fn log_multi_line_message_keeps_first_line() {
    let input = "<logentry revision=\"8\">\n<author>e</author>\n<date>2020-01-01T00:00:00Z</date>\n<msg>Head line\nsecond\nthird</msg>\n</logentry>\n";
    assert_eq!(filter_log(input), "r8 e 2020-01-01 Head line\n");
}

#[test]
fn add_binary_annotation_removed() {
    assert_eq!(filter_add("A  (bin)  logo.png\n"), "A  logo.png\n");
    assert_eq!(render_add("A  (bin)  x.gif\n", &vec![true]), "A  x.gif\n");
}

#[test]
fn log_partial_entry_without_close_falls_back() {
    let input = "<log>\n<logentry revision=\"3\">\n<author>x</author>\n";
    assert_eq!(filter_log(input), input);
}

#[test]
fn info_entry_without_url_or_revision_falls_back() {
    let input = "<info>\n<entry kind=\"dir\" path=\".\">\n</entry>\n</info>\n";
    assert_eq!(filter_info(input), input);
}

#[test]
fn blame_one_output_line_per_input_line() {
    let input = "  1  a  x\nnot blame\n  -  -  y\n";
    let out = filter_blame(input);
    assert_eq!(out.matches('\n').count(), input.lines().count());
}

#[test]
fn info_date_cut_to_ten_characters() {
    let input = "<entry revision=\"2\">\n<commit revision=\"1\">\n<date>2021-12-31T23:59:59.999999Z</date>\n</commit>\n</entry>\n";
    assert_eq!(filter_info(input), "Revision: 2\nLast:     1 2021-12-31\n");
}

#[test]
fn add_parenthesised_file_name_kept() {
    assert_eq!(filter_add("A         (1) notes.txt\n"), "A  (1) notes.txt\n");
    assert_eq!(render_add("A  (draft) plan.md\n", &vec![true]), "A  (draft) plan.md\n");
}

#[test]
fn recognizers_agree_with_passthrough() {
    let noise = "svn: E155007: not a working copy\n";
    assert!(!status_recognizes_any(noise));
    assert_eq!(filter_status(noise), noise);
    assert!(status_recognizes_any("M       a.rs\n"));
    assert!(!add_recognizes_any(noise));
    assert_eq!(filter_add(noise), noise);
    assert!(add_recognizes_any("A         x\n"));
    assert!(!commit_recognizes_any(noise));
    assert!(commit_recognizes_any("Committed revision 3.\n"));
    assert!(!update_recognizes_any(noise));
    assert_eq!(filter_update(noise), noise);
    assert!(update_recognizes_any("At revision 9.\n"));
}

#[test]
fn commit_refiltering_stable_cases() {
    let input = "Sending a\nCommitted revision 4.\n";
    assert!(commit_refiltering_stable(input));
    let once = filter_commit(input);
    assert_eq!(filter_commit(&once), once);
    assert!(commit_refiltering_stable("Committed revision 4.\r"));
}
