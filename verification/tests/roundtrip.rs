use formatter::arrow::{ArrowExpr, ArrowParams, ToFormatElement};
use formatter::context::Formatter;
use formatter::doc::token;
use formatter::printer::{print_document, IndentStyle, PrintConfig};
use rslint_parser::ast::{ArrowExpr as AstArrowExpr, ArrowExprParams};
use rslint_parser::AstNode;

fn cfg() -> PrintConfig {
    PrintConfig { max_width: 80, indent_width: 2, indent_style: IndentStyle::Spaces }
}

fn arrow_model(node: &AstArrowExpr) -> ArrowExpr {
    ArrowExpr {
        async_token: node.async_token().map(|t| t.text().to_string()),
        params: node.params().map(|p| match p {
            ArrowExprParams::Name(name) => {
                ArrowParams::Name(token(&name.syntax().text().to_string()))
            }
            ArrowExprParams::ParameterList(list) => {
                ArrowParams::ParameterList(token(&list.syntax().text().to_string()))
            }
        }),
        fat_arrow_token: node.fat_arrow_token().map(|t| t.text().to_string()),
        body: node.body().map(|b| token(&b.syntax().text().to_string())),
        leading_comments: Vec::new(),
        trailing_comments: Vec::new(),
    }
}

fn format_first_arrow(source: &str) -> Option<String> {
    let parse = rslint_parser::parse_text(source, 0);
    for node in parse.syntax().descendants() {
        if let Some(arrow) = AstArrowExpr::cast(node) {
            let mut context = Formatter::new(cfg(), Vec::new());
            let doc = arrow_model(&arrow).to_format_element(&mut context).unwrap();
            return Some(print_document(&doc, &cfg()).text);
        }
    }
    None
}

#[test]
fn arrow_formatting_normalizes_spacing() {
    let text = format_first_arrow("async  (a, b)   =>  a + b").unwrap();
    assert_eq!(text, "async (a, b) => a + b");
}

#[test]
fn reformatting_formatted_arrow_is_identical() {
    let first = format_first_arrow("async(a, b)=>a + b").unwrap();
    let second = format_first_arrow(&first).unwrap();
    assert_eq!(first, second);
}

#[test]
fn reformatting_single_name_arrow_is_identical() {
    let first = format_first_arrow("x => x * 2").unwrap();
    let second = format_first_arrow(&first).unwrap();
    assert_eq!(first, second);
}
