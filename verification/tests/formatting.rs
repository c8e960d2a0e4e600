use formatter::arrow::{ArrowExpr, ArrowParams, ToFormatElement};
use formatter::context::{comment_element, Comment, CommentPlacement, Formatter};
use formatter::doc::{concat_elements, group, indent, soft_line, token};
use formatter::printer::{print_document, FormatError, IndentStyle, PrintConfig};

fn cfg(max_width: usize) -> PrintConfig {
    PrintConfig { max_width, indent_width: 2, indent_style: IndentStyle::Spaces }
}

fn line_comment(text: &str) -> Comment {
    Comment { text: text.to_string(), placement: CommentPlacement::Leading, line_terminated: true }
}

#[test]
fn arrow_with_async_and_parameter_list() {
    let arrow = ArrowExpr {
        async_token: Some("async".to_string()),
        params: Some(ArrowParams::ParameterList(token("(a, b)"))),
        fat_arrow_token: Some("=>".to_string()),
        body: Some(token("a + b")),
        leading_comments: Vec::new(),
        trailing_comments: Vec::new(),
    };
    let mut formatter = Formatter::new(cfg(80), Vec::new());
    let doc = arrow.to_format_element(&mut formatter).unwrap();
    assert_eq!(print_document(&doc, &cfg(80)).text, "async (a, b) => a + b");
}

#[test]
fn arrow_single_name_gets_parentheses() {
    let arrow = ArrowExpr {
        async_token: None,
        params: Some(ArrowParams::Name(token("x"))),
        fat_arrow_token: Some("=>".to_string()),
        body: Some(token("x")),
        leading_comments: Vec::new(),
        trailing_comments: Vec::new(),
    };
    let mut formatter = Formatter::new(cfg(80), Vec::new());
    let doc = arrow.to_format_element(&mut formatter).unwrap();
    assert_eq!(print_document(&doc, &cfg(80)).text, "(x) => x");
}

#[test]
fn missing_arrow_token_is_a_structural_defect() {
    let arrow = ArrowExpr {
        async_token: None,
        params: Some(ArrowParams::Name(token("x"))),
        fat_arrow_token: None,
        body: Some(token("x")),
        leading_comments: Vec::new(),
        trailing_comments: Vec::new(),
    };
    let mut formatter = Formatter::new(cfg(80), Vec::new());
    assert!(matches!(
        arrow.to_format_element(&mut formatter),
        Err(FormatError::MissingChild)
    ));
}

#[test]
fn missing_body_is_a_structural_defect() {
    let comments = vec![line_comment("// lead")];
    let arrow = ArrowExpr {
        async_token: None,
        params: Some(ArrowParams::Name(token("x"))),
        fat_arrow_token: Some("=>".to_string()),
        body: None,
        leading_comments: vec![0],
        trailing_comments: Vec::new(),
    };
    let mut formatter = Formatter::new(cfg(80), comments);
    assert!(matches!(
        arrow.to_format_element(&mut formatter),
        Err(FormatError::MissingChild)
    ));
    // The defect aborts before any comment is claimed.
    assert_eq!(
        formatter.check_comments_consumed(),
        Err(FormatError::UnconsumedComment(0))
    );
}

#[test]
fn arrow_emits_its_comments_exactly_once() {
    let comments = vec![
        line_comment("// lead"),
        Comment {
            text: "/* after */".to_string(),
            placement: CommentPlacement::Trailing,
            line_terminated: false,
        },
    ];
    let arrow = ArrowExpr {
        async_token: None,
        params: Some(ArrowParams::Name(token("x"))),
        fat_arrow_token: Some("=>".to_string()),
        body: Some(token("x")),
        leading_comments: vec![0],
        trailing_comments: vec![1],
    };
    let mut formatter = Formatter::new(cfg(80), comments);
    let doc = arrow.to_format_element(&mut formatter).unwrap();
    assert!(formatter.check_comments_consumed().is_ok());
    assert_eq!(print_document(&doc, &cfg(80)).text, "// lead
(x) => x/* after */");
}

#[test]
fn unclaimed_comment_after_dispatch_is_detected() {
    let comments = vec![line_comment("// stray")];
    let arrow = ArrowExpr {
        async_token: None,
        params: Some(ArrowParams::Name(token("x"))),
        fat_arrow_token: Some("=>".to_string()),
        body: Some(token("x")),
        leading_comments: Vec::new(),
        trailing_comments: Vec::new(),
    };
    let mut formatter = Formatter::new(cfg(80), comments);
    let doc = arrow.to_format_element(&mut formatter).unwrap();
    assert_eq!(print_document(&doc, &cfg(80)).text, "(x) => x");
    assert_eq!(
        formatter.check_comments_consumed(),
        Err(FormatError::UnconsumedComment(0))
    );
}

#[test]
fn comment_claimed_exactly_once() {
    let comments = vec![line_comment("// one"), line_comment("// two")];
    let mut formatter = Formatter::new(cfg(80), comments);
    assert!(formatter.claim_comment(0));
    assert!(!formatter.claim_comment(0));
    assert!(!formatter.claim_comment(5));
    assert!(formatter.claim_comment(1));
    assert!(formatter.check_comments_consumed().is_ok());
}

#[test]
fn unconsumed_comment_is_detected() {
    let comments = vec![line_comment("// one"), line_comment("// two")];
    let mut formatter = Formatter::new(cfg(80), comments);
    assert!(formatter.claim_comment(0));
    assert_eq!(
        formatter.check_comments_consumed(),
        Err(FormatError::UnconsumedComment(1))
    );
}

#[test]
fn line_comment_forces_break_in_output() {
    let comments = vec![line_comment("// note")];
    let mut formatter = Formatter::new(cfg(80), comments);
    let comment = formatter.take_comment_element(0).unwrap();
    assert!(formatter.take_comment_element(0).is_none());
    let doc = concat_elements(vec![comment, token("x")]);
    assert_eq!(print_document(&doc, &cfg(80)).text, "// note\nx");
}

#[test]
fn line_comment_breaks_enclosing_group() {
    let comments = vec![line_comment("// c")];
    let mut formatter = Formatter::new(cfg(80), comments);
    let comment = formatter.take_comment_element(0).unwrap();
    let doc = group(concat_elements(vec![
        token("{"),
        indent(concat_elements(vec![soft_line(), comment, token("x")])),
        soft_line(),
        token("}"),
    ]));
    assert_eq!(print_document(&doc, &cfg(80)).text, "{\n  // c\n  x\n}");
}

#[test]
fn block_comment_stays_inline() {
    let comment = Comment {
        text: "/* c */".to_string(),
        placement: CommentPlacement::Trailing,
        line_terminated: false,
    };
    let doc = comment_element(&comment);
    assert_eq!(print_document(&doc, &cfg(80)).text, "/* c */");
}

#[test]
fn fresh_group_ids_count_up() {
    let mut formatter = Formatter::new(cfg(80), Vec::new());
    assert_eq!(formatter.fresh_group_id(), 0);
    assert_eq!(formatter.fresh_group_id(), 1);
    assert_eq!(formatter.fresh_group_id(), 2);
}
