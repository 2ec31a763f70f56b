use rubberdux::markdown::telegram::{
    preprocess_tables, render_table_as_blocks, replace_tables, take_converted, MdEvent,
    Span,
};

#[test]
fn test_plain_text_passthrough() {
    let input = "Hello, world!";
    let result = preprocess_tables(input);
    assert!(result.contains("Hello, world!"));
}

#[test]
fn test_table_to_block_list() {
    let input = "| Name | Role |\n|------|------|\n| Alice | Engineer |\n| Bob | Designer |\n";
    let result = preprocess_tables(input);

    assert!(result.contains("**Alice**"));
    assert!(result.contains("  Name: Alice"));
    assert!(result.contains("  Role: Engineer"));
    assert!(result.contains("**Bob**"));
    assert!(result.contains("  Name: Bob"));
    assert!(result.contains("  Role: Designer"));
    assert!(!result.contains('|'));
}

#[test]
fn test_non_table_markdown_preserved() {
    let input = "**bold** and _italic_ and `code`";
    let result = preprocess_tables(input);
    assert!(result.contains("**bold**"));
    assert!(result.contains("_italic_"));
    assert!(result.contains("`code`"));
}

#[test]
fn test_mixed_content() {
    let input = "Before table\n\n| A | B |\n|---|---|\n| 1 | 2 |\n\nAfter table\n";
    let result = preprocess_tables(input);

    assert!(result.contains("Before table"));
    assert!(result.contains("**1**"));
    assert!(result.contains("  A: 1"));
    assert!(result.contains("  B: 2"));
    assert!(result.contains("After table"));
}

#[test]
fn test_code_block_indentation_preserved() {
    let input = "```json\n{\n  \"name\": \"test\",\n  \"value\": 42\n}\n```\n";
    let result = rubberdux::markdown::telegram::format(input);
    println!("CODE BLOCK RESULT (repr):\n{:?}", result);
    assert!(result.contains("  \"name\""), "Indentation should be preserved in code blocks");
}

#[test]
fn test_python_code_block_indentation() {
    let input = "```python\ndef hello():\n    print(\"world\")\n    if True:\n        return 1\n```\n";
    let result = rubberdux::markdown::telegram::format(input);
    println!("PYTHON BLOCK RESULT (repr):\n{:?}", result);
    assert!(result.contains("    print"), "4-space indentation should be preserved");
    assert!(result.contains("        return"), "8-space indentation should be preserved");
}

#[test]
fn test_single_column_table() {
    let input = "| Items |\n|-------|\n| Apple |\n| Banana |\n";
    let result = preprocess_tables(input);

    assert!(result.contains("- Apple"));
    assert!(result.contains("- Banana"));
    assert!(!result.contains(':'));
}

#[test]
fn a_table_becomes_blocks() {
    let headers = vec!["A".to_string(), "B".to_string()];
    let rows = vec![vec!["1".to_string(), "2".to_string()]];
    let text = render_table_as_blocks(&headers, &rows);
    assert!(text.contains("**1**"));
    assert!(text.contains("  A: 1"));
    assert!(text.contains("  B: 2"));
}

#[test]
fn what_the_converter_rejects_is_escaped() {
    assert_eq!(take_converted(None, "a.b!"), "a\\.b\\!");
    assert_eq!(take_converted(Some("done".into()), "a.b!"), "done");
}

#[test]
fn formatting_is_not_the_identity() {
    let result = rubberdux::markdown::telegram::format("1. done!");
    assert_ne!(result, "1. done!");
    assert!(result.contains("\\!"));
}

#[test]
fn a_text_without_tables_is_kept() {
    let spans = vec![Span { event: MdEvent::Words("x".into()), start: 0, end: 1 }];
    assert_eq!(replace_tables("x", &spans), Some("x".to_string()));
    assert_eq!(preprocess_tables("no *table* here"), "no *table* here");
}

#[test]
fn ranges_that_cut_characters_are_refused() {
    let spans = vec![
        Span { event: MdEvent::TableStart, start: 1, end: 2 },
        Span { event: MdEvent::TableEnd, start: 1, end: 2 },
    ];
    assert_eq!(replace_tables("\u{e4}", &spans), None);
}
