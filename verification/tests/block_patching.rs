use branchless_init::block::has_unterminated_region;
use branchless_init::block::update_between_lines;
use branchless_init::hooks::add_execute_bits;
use branchless_init::hooks::determine_hook_path;
use branchless_init::hooks::update_hook_contents;
use branchless_init::hooks::Hook;

const UPDATE_MARKER_START: &str = "## START BRANCHLESS CONFIG";
const UPDATE_MARKER_END: &str = "## END BRANCHLESS CONFIG";

fn b(s: &str) -> Vec<u8> {
    s.as_bytes().to_vec()
}

fn s(v: &[u8]) -> String {
    String::from_utf8(v.to_vec()).unwrap()
}

#[test]
fn test_update_between_lines() {
    let input = format!(
        "\
hello, world
{}
contents 1
{}
goodbye, world
",
        UPDATE_MARKER_START, UPDATE_MARKER_END
    );
    let expected = format!(
        "\
hello, world
{}
contents 2
contents 3
{}
goodbye, world
",
        UPDATE_MARKER_START, UPDATE_MARKER_END
    );

    assert_eq!(
        s(&update_between_lines(
            &b(&input),
            &b("\
contents 2
contents 3
")
        )),
        expected
    )
}

#[test]
fn test_update_between_lines_is_idempotent() {
    let docs = [
        format!(
            "a\n{}\nold\n{}\nz\n",
            UPDATE_MARKER_START, UPDATE_MARKER_END
        ),
        "plain\nlines\n".to_string(),
        String::new(),
        format!("a\n{}\nunterminated\n", UPDATE_MARKER_START),
        format!("a\n{}\nstray end\n", UPDATE_MARKER_END),
    ];
    let block = b("body 1\nbody 2\n");
    for doc in &docs {
        let once = update_between_lines(&b(doc), &block);
        let twice = update_between_lines(&once, &block);
        assert_eq!(s(&twice), s(&once));
    }
}

#[test]
fn test_update_between_lines_appends_when_absent() {
    let out = update_between_lines(&b("keep me\nand me\n"), &b("body\n"));
    let expected = format!(
        "keep me\nand me\n{}\nbody\n{}\n",
        UPDATE_MARKER_START, UPDATE_MARKER_END
    );
    assert_eq!(s(&out), expected);
}

#[test]
fn test_update_between_lines_preserves_surrounding_lines() {
    let input = format!(
        "before 1\nbefore 2\n{}\nold 1\nold 2\n{}\nafter 1\nafter 2\n",
        UPDATE_MARKER_START, UPDATE_MARKER_END
    );
    let out = update_between_lines(&b(&input), &b("new\n"));
    let expected = format!(
        "before 1\nbefore 2\n{}\nnew\n{}\nafter 1\nafter 2\n",
        UPDATE_MARKER_START, UPDATE_MARKER_END
    );
    assert_eq!(s(&out), expected);
}

#[test]
fn test_update_between_lines_unterminated_region_drops_tail() {
    let input = format!("a\n{}\nold\nz\n", UPDATE_MARKER_START);
    let out = update_between_lines(&b(&input), &b("new\n"));
    let expected = format!(
        "a\n{}\nnew\n{}\n",
        UPDATE_MARKER_START, UPDATE_MARKER_END
    );
    assert_eq!(s(&out), expected);
}

#[test]
fn test_update_between_lines_drops_stray_end_marker() {
    let input = format!("a\n{}\nb\n", UPDATE_MARKER_END);
    let out = update_between_lines(&b(&input), &b("new\n"));
    let expected = format!(
        "a\nb\n{}\nnew\n{}\n",
        UPDATE_MARKER_START, UPDATE_MARKER_END
    );
    assert_eq!(s(&out), expected);
}

#[test]
fn test_update_between_lines_empty_document() {
    let out = update_between_lines(&b(""), &b("body\n"));
    let expected = format!("{}\nbody\n{}\n", UPDATE_MARKER_START, UPDATE_MARKER_END);
    assert_eq!(s(&out), expected);
}

#[test]
fn test_update_hook_contents_creates_missing_file() {
    let hook = Hook::RegularHook { path: b(".git/hooks/post-commit") };
    let out = update_hook_contents(&hook, &None, &b("body\n"));
    let expected = format!(
        "#!/bin/sh\n{}\nbody\n{}\n",
        UPDATE_MARKER_START, UPDATE_MARKER_END
    );
    assert_eq!(s(&out), expected);
}

#[test]
fn test_update_hook_contents_patches_existing_file() {
    let hook = Hook::RegularHook { path: b(".git/hooks/post-commit") };
    let existing = format!(
        "#!/bin/sh\n{}\nold\n{}\n",
        UPDATE_MARKER_START, UPDATE_MARKER_END
    );
    let out = update_hook_contents(&hook, &Some(b(&existing)), &b("new\n"));
    let expected = format!(
        "#!/bin/sh\n{}\nnew\n{}\n",
        UPDATE_MARKER_START, UPDATE_MARKER_END
    );
    assert_eq!(s(&out), expected);
}

#[test]
fn test_update_hook_contents_overwrites_multi_hook_fragment() {
    let hook = Hook::MultiHook { path: b(".git/hooks_multi/post-commit.d/00_local_branchless") };
    let out = update_hook_contents(&hook, &Some(b("ignored old contents")), &b("body\n"));
    assert_eq!(s(&out), "#!/bin/sh\nbody\n");
}

#[test]
fn test_determine_hook_path_flat_and_fragment() {
    let flat = determine_hook_path(&b(".git"), &b(".git/hooks"), false, &b("post-commit"));
    match flat {
        Hook::RegularHook { path } => assert_eq!(s(&path), ".git/hooks/post-commit"),
        Hook::MultiHook { .. } => panic!("expected a flat hook"),
    }
    let frag = determine_hook_path(&b(".git"), &b(".git/hooks"), true, &b("post-commit"));
    match frag {
        Hook::MultiHook { path } => {
            assert_eq!(s(&path), ".git/hooks_multi/post-commit.d/00_local_branchless")
        }
        Hook::RegularHook { .. } => panic!("expected a fragment hook"),
    }
}

#[test]
fn test_add_execute_bits_keeps_other_bits() {
    assert_eq!(add_execute_bits(0o644), 0o755);
    assert_eq!(add_execute_bits(0o600), 0o711);
    assert_eq!(add_execute_bits(0o755), 0o755);
}

#[test]
fn test_has_unterminated_region() {
    assert!(has_unterminated_region(&b(&format!(
        "a\n{}\nx\n",
        UPDATE_MARKER_START
    ))));
    assert!(!has_unterminated_region(&b(&format!(
        "a\n{}\nx\n{}\n",
        UPDATE_MARKER_START, UPDATE_MARKER_END
    ))));
    assert!(!has_unterminated_region(&b("plain\n")));
}

#[test]
fn test_update_between_lines_normalizes_crlf() {
    let out = update_between_lines(&b("a\r\nb\r\n"), &b("body\n"));
    let expected = format!(
        "a\nb\n{}\nbody\n{}\n",
        UPDATE_MARKER_START, UPDATE_MARKER_END
    );
    assert_eq!(s(&out), expected);
}
