use branchless_init::section::section_apply;
use branchless_init::section::section_string;
use branchless_init::section::update_config_text;

fn b(s: &str) -> Vec<u8> {
    s.as_bytes().to_vec()
}

fn s(v: &[u8]) -> String {
    String::from_utf8(v.to_vec()).unwrap()
}

#[test]
fn test_config_text_update() {
    let original = "\
[blahblah]
\tkey = \"value\"
";
    let expect = "\
# git-branchless section start
[include]
\tpath = \"branchless/config\"
\tpath = \"~/.gitconfig\"
# git-branchless section end
[blahblah]
\tkey = \"value\"
";
    assert_eq!(
        s(&update_config_text(&b(original), &b("branchless/config"))),
        expect
    );
    // Check for idempotence.
    assert_eq!(
        s(&update_config_text(&b(expect), &b("branchless/config"))),
        expect
    );
}

#[test]
fn test_update_config_text_prepends_to_empty_config() {
    let expect = "\
# git-branchless section start
[include]
\tpath = \"branchless/config\"
\tpath = \"~/.gitconfig\"
# git-branchless section end
";
    assert_eq!(s(&update_config_text(&b(""), &b("branchless/config"))), expect);
}

#[test]
fn test_section_apply_replaces_first_span_only() {
    let text = "before\nH\nold body\nF\nmiddle\nH\nother body\nF\nafter\n";
    let out = section_apply(&b(text), &b("H\n"), &b("F\n"), &b("new body\n"));
    assert_eq!(
        s(&out),
        "before\nH\nnew body\nF\nmiddle\nH\nother body\nF\nafter\n"
    );
}

#[test]
fn test_section_apply_prepends_when_no_span() {
    let out = section_apply(&b("user text\n"), &b("H\n"), &b("F\n"), &b("body\n"));
    assert_eq!(s(&out), "H\nbody\nF\nuser text\n");
}

#[test]
fn test_section_apply_prepends_when_footer_never_follows_header() {
    let out = section_apply(&b("H\nno footer here\n"), &b("H\n"), &b("F\n"), &b("body\n"));
    assert_eq!(s(&out), "H\nbody\nF\nH\nno footer here\n");
}

#[test]
fn test_section_apply_is_a_fixed_point() {
    let texts = ["", "user\n", "H\nold\nF\ntail\n", "junk\nH\nold\nF\n"];
    for text in &texts {
        let once = section_apply(&b(text), &b("H\n"), &b("F\n"), &b("body\n"));
        let twice = section_apply(&once, &b("H\n"), &b("F\n"), &b("body\n"));
        assert_eq!(s(&twice), s(&once));
    }
}

#[test]
fn test_section_string_wraps_contents() {
    let out = section_string(&b("contents\n"));
    assert_eq!(
        s(&out),
        "# git-branchless section start\ncontents\n# git-branchless section end\n"
    );
}
