use formatter::doc::{
    concat_elements, empty_element, fill_elements, group, group_break_if, group_with_id, hard_line,
    indent, literal_line, soft_line, space_token, token, FormatElement,
};
use formatter::printer::{
    print_document, print_document_checked, FormatError, IndentStyle, PrintConfig,
};

fn cfg(max_width: usize) -> PrintConfig {
    PrintConfig { max_width, indent_width: 2, indent_style: IndentStyle::Spaces }
}

fn call_f_a_b_c() -> FormatElement {
    group(concat_elements(vec![
        token("f("),
        indent(concat_elements(vec![
            token("a,"),
            soft_line(),
            token("b,"),
            soft_line(),
            token("c"),
        ])),
        token(")"),
    ]))
}

#[test]
fn group_fits_renders_flat() {
    let out = print_document(&call_f_a_b_c(), &cfg(80));
    assert_eq!(out.text, "f(a, b, c)");
    assert!(out.defects.is_empty());
}

#[test]
fn group_oversized_renders_broken() {
    let pad: String = std::iter::repeat('x').take(75).collect();
    let doc = concat_elements(vec![token(&pad), call_f_a_b_c()]);
    let out = print_document(&doc, &cfg(80));
    let expected = format!("{}f(a,\n  b,\n  c)", pad);
    assert_eq!(out.text, expected);
}

#[test]
fn fill_packs_line_by_line() {
    let mut items: Vec<FormatElement> = Vec::new();
    for i in 0..10 {
        if i > 0 {
            items.push(concat_elements(vec![token(","), soft_line()]));
        }
        items.push(token("aaa"));
    }
    let out = print_document(&fill_elements(items), &cfg(20));
    assert_eq!(out.text, "aaa, aaa, aaa, aaa,\naaa, aaa, aaa, aaa,\naaa, aaa");
    let lines: Vec<&str> = out.text.lines().collect();
    assert!(lines.len() > 1);
    for line in lines {
        assert!(line.len() <= 20);
    }
}

#[test]
fn hard_line_forces_enclosing_group_to_break() {
    let doc = group(concat_elements(vec![
        token("a"),
        soft_line(),
        token("b"),
        hard_line(),
        token("c"),
    ]));
    let out = print_document(&doc, &cfg(80));
    assert_eq!(out.text, "a\nb\nc");

    let flat = group(concat_elements(vec![token("a"), soft_line(), token("b")]));
    assert_eq!(print_document(&flat, &cfg(80)).text, "a b");
}

fn list_with_conditional_comma() -> FormatElement {
    group_with_id(
        7,
        concat_elements(vec![
            token("["),
            indent(concat_elements(vec![
                token("a,"),
                soft_line(),
                token("b"),
                group_break_if(7, token(",")),
            ])),
            token("]"),
        ]),
    )
}

#[test]
fn break_if_comma_absent_when_flat() {
    let out = print_document(&list_with_conditional_comma(), &cfg(80));
    assert_eq!(out.text, "[a, b]");
    assert!(out.defects.is_empty());
}

#[test]
fn break_if_comma_present_when_broken() {
    let out = print_document(&list_with_conditional_comma(), &cfg(5));
    assert_eq!(out.text, "[a,\n  b,]");
    assert!(out.defects.is_empty());
}

#[test]
fn dangling_break_if_is_reported() {
    let doc = group_break_if(9, token(","));
    let out = print_document(&doc, &cfg(80));
    assert_eq!(out.text, "");
    assert_eq!(out.defects, vec![9]);
    assert_eq!(
        print_document_checked(&doc, &cfg(80)),
        Err(FormatError::DanglingGroupBreakIf(9))
    );
}

#[test]
fn checked_print_succeeds_without_defects() {
    let doc = call_f_a_b_c();
    assert_eq!(print_document_checked(&doc, &cfg(80)), Ok("f(a, b, c)".to_string()));
}

#[test]
fn printing_is_deterministic() {
    let first = print_document(&call_f_a_b_c(), &cfg(9));
    let second = print_document(&call_f_a_b_c(), &cfg(9));
    assert_eq!(first.text, second.text);
    assert_eq!(first.defects, second.defects);
}

#[test]
fn trailing_spaces_are_trimmed_at_line_ends() {
    let doc = concat_elements(vec![token("a"), space_token(), hard_line(), token("b")]);
    let out = print_document(&doc, &cfg(80));
    assert_eq!(out.text, "a\nb");
}

#[test]
fn literal_line_suppresses_indentation() {
    let doc = concat_elements(vec![
        token("a"),
        indent(concat_elements(vec![
            hard_line(),
            token("b"),
            literal_line(),
            token("c"),
        ])),
    ]);
    let out = print_document(&doc, &cfg(80));
    assert_eq!(out.text, "a\n  b\nc");
}

#[test]
fn literal_line_preserves_preformatted_spacing() {
    // A pre-formatted segment ending in spaces passes through unaltered:
    // only soft and hard line breaks trim the line they end.
    let doc = concat_elements(vec![token("pre "), literal_line(), token("x")]);
    let out = print_document(&doc, &cfg(80));
    assert_eq!(out.text, "pre \nx");

    let trimmed = concat_elements(vec![token("pre "), hard_line(), token("x")]);
    assert_eq!(print_document(&trimmed, &cfg(80)).text, "pre\nx");
}

#[test]
fn tabs_indent_one_tab_per_level() {
    let config = PrintConfig { max_width: 80, indent_width: 4, indent_style: IndentStyle::Tabs };
    let doc = concat_elements(vec![
        token("a"),
        indent(concat_elements(vec![hard_line(), token("b")])),
    ]);
    let out = print_document(&doc, &config);
    assert_eq!(out.text, "a\n\tb");
}

#[test]
fn empty_document_renders_nothing() {
    let out = print_document(&empty_element(), &cfg(80));
    assert_eq!(out.text, "");
}

#[test]
fn unbreakable_text_overflows_rather_than_fails() {
    let doc = group(token("abcdefgh"));
    let out = print_document(&doc, &cfg(3));
    assert_eq!(out.text, "abcdefgh");
}

#[test]
fn nested_groups_decide_independently() {
    let inner = group(concat_elements(vec![token("x,"), soft_line(), token("y")]));
    let doc = group(concat_elements(vec![
        token("longhead("),
        indent(concat_elements(vec![soft_line(), inner])),
        soft_line(),
        token(")"),
    ]));
    let out = print_document(&doc, &cfg(12));
    // The outer group does not fit; the inner one does once broken onto its
    // own line.
    assert_eq!(out.text, "longhead(\n  x, y\n)");
}
