use svn_filter::{
    filter_add, filter_blame, filter_commit, filter_diff, filter_info, filter_log, filter_status,
    filter_update,
};

fn count_tokens(text: &str) -> usize {
    text.split_whitespace().count()
}

// -- status --

#[test]
fn test_filter_status() {
    let input = r" M      src/main.rs
M       src/lib.rs
?       newfile.txt
A       added.rs
 D      deleted.rs
";
    let output = filter_status(input);
    assert_eq!(output, "M src/main.rs\nM src/lib.rs\n? newfile.txt\nA added.rs\nD deleted.rs\n");
}

#[test]
fn test_status_token_savings() {
    let input = r" M      src/main.rs
M       src/lib.rs
?       newfile.rs
A       added.rs
";
    let output = filter_status(input);
    let savings = 100.0 - (count_tokens(&output) as f64 / count_tokens(input) as f64 * 100.0);
    assert!(savings >= 0.0, "status savings: expected >=0%, got {:.1}%", savings);
}

// -- log --

#[test]
fn test_filter_log() {
    let input = r#"<?xml version="1.0" encoding="UTF-8"?>
<log>
<logentry revision="12345">
<author>user</author>
<date>2024-01-15T02:30:00.000000Z</date>
<msg>Fix bug in parser</msg>
</logentry>
<logentry revision="12344">
<author>dev2</author>
<date>2024-01-14T10:15:00.000000Z</date>
<msg>Added new feature

With a longer body.</msg>
</logentry>
</log>"#;
    let output = filter_log(input);
    assert_eq!(output, "r12345 user 2024-01-15 Fix bug in parser\nr12344 dev2 2024-01-14 Added new feature\n");
}

#[test]
fn test_log_token_savings() {
    let input = r#"<logentry revision="12345">
<author>user</author>
<date>2024-01-15T02:30:00.000000Z</date>
<msg>Fix bug in parser</msg>
</logentry>"#;
    let output = filter_log(input);
    let savings = 100.0 - (count_tokens(&output) as f64 / count_tokens(input) as f64 * 100.0);
    assert!(savings >= 10.0, "log savings: expected >=10%, got {:.1}%", savings);
}

// -- diff --

#[test]
fn test_filter_diff() {
    let input = r"Index: src/main.rs
===================================================================
--- src/main.rs    (revision 12345)
+++ src/main.rs    (working copy)
@@ -1,3 +1,4 @@
 line1
+new line
 line2
";
    let output = filter_diff(input);
    assert_eq!(output, "--- src/main.rs\n+++ src/main.rs\n@@ -1,3 +1,4 @@\n line1\n+new line\n line2\n");
}

#[test]
fn test_diff_token_savings() {
    let input = r"Index: src/main.rs
===================================================================
--- src/main.rs    (revision 12345)
+++ src/main.rs    (working copy)
@@ -1,3 +1,4 @@
 line1
+new line
";
    let output = filter_diff(input);
    let savings = 100.0 - (count_tokens(&output) as f64 / count_tokens(input) as f64 * 100.0);
    assert!(savings >= 30.0, "diff savings: expected >=30%, got {:.1}%", savings);
}

// -- info --

#[test]
fn test_filter_info() {
    let input = r#"<?xml version="1.0"?>
<info>
<entry kind="dir" path="." revision="12345">
<url>https://svn.example.com/svn/project/trunk</url>
<relative-url>^/trunk</relative-url>
<repository>
<root>https://svn.example.com/svn/project</root>
<uuid>abc-def-123</uuid>
</repository>
<wc-info>
<wcroot-abspath>/home/user/project</wcroot-abspath>
<schedule>normal</schedule>
<depth>infinity</depth>
</wc-info>
<commit revision="12344">
<author>user</author>
<date>2024-01-15T02:30:00.000000Z</date>
</commit>
</entry>
</info>"#;
    let output = filter_info(input);
    assert_eq!(output, "URL:      https://svn.example.com/svn/project/trunk\nRevision: 12345\nLast:     12344 user 2024-01-15\n");
}

#[test]
fn test_info_token_savings() {
    let input = r#"<entry revision="12345">
<url>https://example.com/svn/trunk</url>
<commit revision="12344">
<author>user</author>
<date>2024-01-15T02:30:00.000000Z</date>
</commit>
</entry>"#;
    let output = filter_info(input);
    let savings = 100.0 - (count_tokens(&output) as f64 / count_tokens(input) as f64 * 100.0);
    assert!(savings >= 0.0, "info savings: expected >=0%, got {:.1}%", savings);
}

// -- blame --

#[test]
fn test_filter_blame() {
    let input = r"  12345    user    line of code here
  12346    user2   another line
";
    let output = filter_blame(input);
    assert_eq!(output, "12345 user line of code here\n12346 user2 another line\n");
}

#[test]
fn test_blame_token_savings() {
    let input = r"  12345    user    fn main() {
  12346    user2     println!();
";
    let output = filter_blame(input);
    let savings = 100.0 - (count_tokens(&output) as f64 / count_tokens(input) as f64 * 100.0);
    assert!(savings >= 0.0, "blame savings: expected >=0%, got {:.1}%", savings);
}

// -- add --

#[test]
fn test_filter_add() {
    let input = r"A         src/newfile.rs
A         src/utils/helper.rs
";
    let output = filter_add(input);
    assert_eq!(output, "A  src/newfile.rs\nA  src/utils/helper.rs\n");
}

#[test]
fn test_add_token_savings() {
    let input = r"A         src/newfile.rs
A         src/utils/helper.rs
";
    let output = filter_add(input);
    let savings = 100.0 - (count_tokens(&output) as f64 / count_tokens(input) as f64 * 100.0);
    assert!(savings >= 0.0, "add savings: expected >=0%, got {:.1}%", savings);
}

// -- commit --

#[test]
fn test_filter_commit() {
    let input = r"Adding         src/main.rs
Transmitting file data .done
Committed revision 12345.
";
    let output = filter_commit(input);
    assert_eq!(output, "Committed revision 12345.\n");
}

#[test]
fn test_commit_token_savings() {
    let input = r"Adding         src/main.rs
Transmitting file data .done
Committed revision 12345.
";
    let output = filter_commit(input);
    let savings = 100.0 - (count_tokens(&output) as f64 / count_tokens(input) as f64 * 100.0);
    assert!(savings >= 60.0, "commit savings: expected >=60%, got {:.1}%", savings);
}

// -- update --

#[test]
fn test_filter_update() {
    let input = r"Updating '.':
A    src/newfile.rs
U    src/existing.rs
Updated to revision 12345.
";
    let output = filter_update(input);
    assert_eq!(output, "A  src/newfile.rs\nU  src/existing.rs\nUpdated to r12345\n");
}

#[test]
fn test_update_token_savings() {
    let input = r"A    src/newfile.rs
U    src/existing.rs
Updated to revision 12345.
";
    let output = filter_update(input);
    let savings = 100.0 - (count_tokens(&output) as f64 / count_tokens(input) as f64 * 100.0);
    assert!(savings >= 0.0, "update savings: expected >=0%, got {:.1}%", savings);
}

// -- empty / edge cases --

#[test]
fn test_filter_status_empty() {
    assert_eq!(filter_status(""), "");
}

#[test]
fn test_filter_log_empty() {
    assert_eq!(filter_log(""), "");
}

#[test]
fn test_filter_diff_empty() {
    assert_eq!(filter_diff(""), "");
}

#[test]
fn test_filter_info_empty() {
    assert_eq!(filter_info(""), "");
}

#[test]
fn test_filter_blame_single_line() {
    let output = filter_blame("  12345    user    fn foo() {}\n");
    assert_eq!(output, "12345 user fn foo() {}\n");
}

#[test]
fn test_filter_add_empty() {
    assert_eq!(filter_add(""), "");
}

#[test]
fn test_filter_commit_no_revision() {
    let output = filter_commit("Some random output\n");
    assert_eq!(output, "Some random output\n");
}

#[test]
fn test_filter_update_empty() {
    assert_eq!(filter_update(""), "");
}
