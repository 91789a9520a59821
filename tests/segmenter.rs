use ballista::files::{has_templates_segment, is_documentation_file, load_file, split_lines, File, Finder};
use ballista::qdrant::SearchHit;

fn chunks_of(text: &str) -> Vec<String> {
    let mut f = File::new("doc.md".to_string(), text.to_string());
    f.parse();
    f.sentences
}

#[test]
fn heading_and_two_paragraphs() {
    assert_eq!(
        chunks_of("# Title\n\nSome text\n\nMore text\n"),
        vec!["Some text\n".to_string(), "More text\n".to_string()]
    );
}

#[test]
fn comment_region_is_absent() {
    let text = "---\ntitle: Secret\nhidden: yes\n---\nBody line\n\n";
    let chunks = chunks_of(text);
    assert_eq!(chunks, vec!["Body line\n".to_string()]);
    assert!(chunks.iter().all(|c| !c.contains("Secret") && !c.contains("hidden")));
}

#[test]
fn code_block_is_one_chunk() {
    let text = "```rust\nlet a = 1;\n\nlet b = 2;\n```\n";
    assert_eq!(
        chunks_of(text),
        vec!["```rust\nlet a = 1;\n\nlet b = 2;\n```\n".to_string()]
    );
}

#[test]
fn code_block_keeps_every_line() {
    let text = "```sh\necho hi\n\necho bye\n```\n";
    assert_eq!(chunks_of(text), vec![text.to_string()]);
}

#[test]
fn closing_fence_on_last_line_adds_no_newline() {
    assert_eq!(chunks_of("```\n```"), vec!["```\n```".to_string()]);
    assert_eq!(chunks_of("x\n\n```\ncode\n```"), vec!["x\n".to_string(), "```\ncode\n```".to_string()]);
}

#[test]
fn unterminated_code_block_is_dropped() {
    assert_eq!(
        chunks_of("Intro\n\n```\nfn main() {}\n"),
        vec!["Intro\n".to_string()]
    );
}

#[test]
fn unterminated_prose_is_dropped() {
    assert_eq!(
        chunks_of("Para one\n\nPara two"),
        vec!["Para one\n".to_string()]
    );
}

#[test]
fn multi_line_paragraph_keeps_order() {
    assert_eq!(
        chunks_of("first\nsecond\n\nthird\n\n"),
        vec!["first\nsecond\n".to_string(), "third\n".to_string()]
    );
}

#[test]
fn crlf_lines() {
    assert_eq!(chunks_of("Line\r\n\r\n"), vec!["Line\n".to_string()]);
}

#[test]
fn empty_text_has_no_chunks() {
    assert!(chunks_of("").is_empty());
    assert!(chunks_of("# Only a heading\n").is_empty());
}

#[test]
fn parse_keeps_path_and_contents() {
    let mut f = File::new("a/b.md".to_string(), "x\n\n".to_string());
    f.parse();
    assert_eq!(f.path, "a/b.md");
    assert_eq!(f.contents, "x\n\n");
    assert_eq!(f.sentences, vec!["x\n".to_string()]);
}

#[test]
fn split_lines_keeps_final_segment() {
    assert_eq!(split_lines("a\nb\r\n"), vec!["a", "b", ""]);
    assert_eq!(split_lines("abc"), vec!["abc"]);
    assert_eq!(split_lines(""), vec![""]);
}

fn corpus() -> Vec<File> {
    vec![
        File::new("a.md".to_string(), "alpha".to_string()),
        File::new("b.md".to_string(), "beta".to_string()),
        File::new("b.md".to_string(), "shadowed".to_string()),
    ]
}

#[test]
fn find_returns_first_match() {
    let files = corpus();
    assert_eq!(files.find("b.md"), Some("beta".to_string()));
    assert_eq!(files.find("a.md"), Some("alpha".to_string()));
    assert_eq!(files.find("c.md"), None);
}

#[test]
fn get_contents_follows_hit() {
    let files = corpus();
    assert_eq!(
        files.get_contents(&SearchHit::new(Some("a.md".to_string()))),
        Some("alpha".to_string())
    );
    assert_eq!(files.get_contents(&SearchHit::new(None)), None);
}

#[test]
fn templates_are_skipped_whatever_the_case() {
    assert!(!is_documentation_file("templates/page.md", "md"));
    assert!(!is_documentation_file("TEMPLATES/page.md", "md"));
    assert!(!is_documentation_file("docs/Templates/page.md", "md"));
    assert!(is_documentation_file("Templates-old/page.md", "md"));
    assert!(is_documentation_file("docs/templates.md", "md"));
    assert!(is_documentation_file("docs/intro.md", "md"));
    assert!(!is_documentation_file("docs/intro.txt", "txt"));
}

#[test]
fn load_file_segments_selected_files() {
    let f = load_file("docs/a.md".to_string(), "md", "Hello\n\n".to_string()).unwrap();
    assert_eq!(f.path, "docs/a.md");
    assert_eq!(f.sentences, vec!["Hello\n".to_string()]);
    assert!(load_file("Templates/a.md".to_string(), "md", "Hello\n\n".to_string()).is_none());
}

#[test]
fn templates_segment_is_whole() {
    assert!(has_templates_segment("templates"));
    assert!(has_templates_segment("a/templates/b.md"));
    assert!(has_templates_segment("a/templates"));
    assert!(!has_templates_segment("a/templatesx/b.md"));
    assert!(!has_templates_segment("my-templates/b.md"));
    assert!(!has_templates_segment(""));
}
