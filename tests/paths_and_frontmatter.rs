use vault_archive::frontmatter::{frontmatter_of_lines, is_markdown_name, replace_frontmatter};
use vault_archive::paths::{get_file_ext, normalize_path};

fn lines(text: &str) -> Vec<String> {
    text.lines().map(|l| l.to_string()).collect()
}

#[test]
fn normalize_strips_leading_separators_only() {
    assert_eq!(normalize_path("/a/b.txt"), "a/b.txt");
    assert_eq!(normalize_path("a/b.txt"), "a/b.txt");
    assert_eq!(normalize_path("\\a\\b.txt"), "a\\b.txt");
    assert_eq!(normalize_path("//x/./y"), "x/./y");
    assert_eq!(normalize_path("/"), "");
    assert_eq!(normalize_path(""), "");
}

#[test]
fn normalize_is_idempotent() {
    for p in ["/a", "//\\b/c", "d/", "", "\\"] {
        let once = normalize_path(p);
        assert_eq!(normalize_path(&once), once);
    }
}

#[test]
fn file_ext_after_last_dot() {
    assert_eq!(get_file_ext("note.md"), Some("md"));
    assert_eq!(get_file_ext("archive.tar.zst"), Some("zst"));
    assert_eq!(get_file_ext("trailing."), Some(""));
    assert_eq!(get_file_ext("README"), None);
    assert_eq!(get_file_ext("héllo.wörld"), Some("wörld"));
}

#[test]
fn markdown_names() {
    assert!(is_markdown_name("a.md"));
    assert!(!is_markdown_name("a.MD"));
    assert!(!is_markdown_name("a.mdx"));
    assert!(!is_markdown_name("md"));
}

#[test]
fn frontmatter_between_delimiters() {
    let text = "---\ntitle: x\ntags: [a]\n---\nbody\n---\nmore\n";
    assert_eq!(frontmatter_of_lines(&lines(text)), "title: x\ntags: [a]\n");
    assert_eq!(frontmatter_of_lines(&lines("no frontmatter\n")), "");
    assert_eq!(frontmatter_of_lines(&lines("---\nopen: 1\n")), "open: 1\n");
}

#[test]
fn frontmatter_replaced_body_kept() {
    let text = "---\nold: 1\n---\nbody\n---\nafter\n";
    let out = replace_frontmatter(&lines(text), "new: 2\n");
    assert_eq!(out, "---\nnew: 2\n---\nbody\n---\nafter\n");
    let plain = replace_frontmatter(&lines("just text\n"), "k: v\n");
    assert_eq!(plain, "---\nk: v\n---\njust text\n");
}
