use tokf::config::types::Section;
use tokf::filter::section::{collect_sections, SectionMap};
use tokf::filter::template::{
    apply_pipe, cut_at_pipes, evaluate, find_closing_brace, parse_pipe, read_quoted,
    render_template, Pipe, TemplateContext, Value,
};
use tokf::text::chars_of;

fn vars(pairs: &[(&str, &str)]) -> TemplateContext {
    let mut out = TemplateContext::new();
    for (k, v) in pairs {
        out.insert(k.to_string(), v.to_string());
    }
    out
}

fn render(template: &str, pairs: &[(&str, &str)]) -> String {
    render_template(template, &vars(pairs), &SectionMap::new())
}

fn sections() -> SectionMap {
    let items = Section {
        name: None,
        enter: None,
        exit: None,
        match_pattern: Some("^item".to_string()),
        split_on: None,
        collect_as: Some("items".to_string()),
    };
    let blocks = Section {
        name: None,
        enter: None,
        exit: None,
        match_pattern: None,
        split_on: Some("^$".to_string()),
        collect_as: Some("blocks".to_string()),
    };
    collect_sections(&[items, blocks], &["item: one", "x", "", "item: two", "y", "", "z"])
}

fn list(items: &[&str]) -> Value {
    Value::List(items.iter().map(|s| s.to_string()).collect())
}

fn text(s: &str) -> Value {
    Value::Str(s.to_string())
}

fn pipe(value: Value, segment: &str) -> Value {
    apply_pipe(value, &parse_pipe(&chars_of(segment)))
}

#[test]
fn pipes_are_read_from_their_segments() {
    let read = |s: &str| parse_pipe(&chars_of(s));
    assert_eq!(read(" lines "), Pipe::Lines);
    assert_eq!(read("lines: \"x\""), Pipe::Lines);
    assert_eq!(read("keep: \"^a:b\""), Pipe::Keep("^a:b".to_string()));
    assert_eq!(read("where:\"x\""), Pipe::Keep("x".to_string()));
    assert_eq!(read("join : \"\\n\""), Pipe::Join("\n".to_string()));
    assert_eq!(read("join"), Pipe::Pass);
    assert_eq!(read("keep: x"), Pipe::Pass);
    assert_eq!(read("each: \"x\""), Pipe::Pass);
    assert_eq!(read(""), Pipe::Pass);
}

#[test]
fn plain_text_is_unchanged() {
    assert_eq!(render("ok (up-to-date)", &[]), "ok (up-to-date)");
    assert_eq!(render("", &[("output", "x")]), "");
}

#[test]
fn variables_are_substituted() {
    assert_eq!(render("{output}", &[("output", "hello world")]), "hello world");
    assert_eq!(render("a {x} b {y} c", &[("x", "1"), ("y", "2")]), "a 1 b 2 c");
    assert_eq!(render("{ x }", &[("x", "1")]), "1");
}

#[test]
fn unbound_variable_is_empty() {
    assert_eq!(render("[{missing}]", &[]), "[]");
    assert_eq!(render("[{}]", &[]), "[]");
    assert_eq!(render("[{a.b}]", &[]), "[]");
}

#[test]
fn substituted_text_is_not_rendered_again() {
    assert_eq!(render("{x}", &[("x", "{y}"), ("y", "no")]), "{y}");
}

#[test]
fn brace_without_closing_brace_stands_for_itself() {
    assert_eq!(render("a { b", &[]), "a { b");
    assert_eq!(render("{", &[]), "{");
    assert_eq!(render("{x} {", &[("x", "1")]), "1 {");
    assert_eq!(render("} {x}", &[("x", "1")]), "} 1");
    assert_eq!(render("{x | join: \"}", &[("x", "1")]), "{x | join: \"}");
}

#[test]
fn later_insert_replaces_a_variable() {
    let mut v = vars(&[("x", "1"), ("y", "2")]);
    v.insert("x".to_string(), "3".to_string());
    assert_eq!(render_template("{x}{y}", &v, &SectionMap::new()), "32");
}

#[test]
fn section_count_counts_lines_or_blocks() {
    let s = sections();
    assert_eq!(render_template("{items.count}", &vars(&[]), &s), "2");
    assert_eq!(render_template("{blocks.count}", &vars(&[]), &s), "3");
}

#[test]
fn section_lines_and_blocks_are_lists() {
    let s = sections();
    assert_eq!(render_template("{items.lines}", &vars(&[]), &s), "item: one\nitem: two");
    assert_eq!(
        render_template("{items.lines | join: \", \"}", &vars(&[]), &s),
        "item: one, item: two"
    );
    assert_eq!(
        render_template("{blocks.blocks | join: \" / \"}", &vars(&[]), &s),
        "item: one\nx / item: two\ny / z"
    );
    assert_eq!(render_template("{items.blocks}", &vars(&[]), &s), "");
    assert_eq!(render_template("[{items.other}]", &vars(&[]), &s), "[]");
}

#[test]
fn dotted_name_that_names_no_section_is_a_variable() {
    let s = sections();
    let v = vars(&[("a.b", "dotted"), ("items", "var")]);
    assert_eq!(render_template("{a.b}", &v, &s), "dotted");
    assert_eq!(render_template("{items}", &v, &s), "var");
    assert_eq!(render_template("[{blocks}]", &v, &s), "[]");
}

#[test]
fn pipe_chain_filters_lines() {
    assert_eq!(
        render(
            "{output | lines | keep: \"^WARN\" | join: \"\\n\"}",
            &[("output", "INFO x\nWARN: y\nINFO z\nWARN: w")]
        ),
        "WARN: y\nWARN: w"
    );
}

#[test]
fn list_that_is_not_joined_is_joined_by_newlines() {
    assert_eq!(
        render("{output | lines | where: \"b\"}", &[("output", "a\nb1\nc\nb2")]),
        "b1\nb2"
    );
}

#[test]
fn lines_pipe_splits_a_string() {
    assert_eq!(pipe(text("a\nb\r\nc\n"), "lines"), list(&["a", "b", "c"]));
    assert_eq!(pipe(text(""), " lines "), list(&[]));
    assert_eq!(pipe(list(&["a\nb"]), "lines"), list(&["a\nb"]));
}

#[test]
fn keep_pipe_filters_a_list() {
    assert_eq!(pipe(list(&["a1", "b", "a2"]), "keep: \"^a\""), list(&["a1", "a2"]));
    assert_eq!(pipe(list(&["a1", "b", "a2"]), "where:\"^b\""), list(&["b"]));
    assert_eq!(pipe(list(&["a1", "b"]), "keep: \"^z\""), list(&[]));
}

#[test]
fn pipe_that_does_not_fit_hands_the_value_on() {
    assert_eq!(pipe(text("a\nb"), "join: \",\""), text("a\nb"));
    assert_eq!(pipe(text("a\nb"), "keep: \"a\""), text("a\nb"));
    assert_eq!(pipe(list(&["a", "b"]), "keep"), list(&["a", "b"]));
    assert_eq!(pipe(list(&["a", "b"]), "keep: a"), list(&["a", "b"]));
    assert_eq!(pipe(list(&["a", "b"]), "keep: \"[invalid\""), list(&["a", "b"]));
    assert_eq!(pipe(list(&["a", "b"]), "join"), list(&["a", "b"]));
    assert_eq!(pipe(list(&["a", "b"]), "unknown: \"x\""), list(&["a", "b"]));
    assert_eq!(pipe(list(&["a", "b"]), ""), list(&["a", "b"]));
    assert_eq!(pipe(list(&["a", "b"]), "Lines"), list(&["a", "b"]));
}

#[test]
fn join_pipe_joins_a_list() {
    assert_eq!(pipe(list(&["a", "b", "c"]), "join: \", \""), text("a, b, c"));
    assert_eq!(pipe(list(&["a", "b"]), "join: \"\""), text("ab"));
    assert_eq!(pipe(list(&[]), "join: \",\""), text(""));
    assert_eq!(pipe(list(&["a", "b"]), "join: \"\\t|\\\\\\\"\\n\""), text("a\t|\\\"\nb"));
}

#[test]
fn quoted_arguments_are_unescaped() {
    let read = |s: &str| read_quoted(&chars_of(s)).map(|c| c.into_iter().collect::<String>());
    assert_eq!(read("\"abc\""), Some("abc".to_string()));
    assert_eq!(read("\"\""), Some("".to_string()));
    assert_eq!(read("\"a\\nb\""), Some("a\nb".to_string()));
    assert_eq!(read("\"a\\tb\""), Some("a\tb".to_string()));
    assert_eq!(read("\"a\\\\b\""), Some("a\\b".to_string()));
    assert_eq!(read("\"a\\\"b\""), Some("a\"b".to_string()));
    assert_eq!(read("\"a\\xb\""), Some("axb".to_string()));
    assert_eq!(read("\"a|b}\""), Some("a|b}".to_string()));
    assert_eq!(read("\""), None);
    assert_eq!(read("abc"), None);
    assert_eq!(read("\"abc"), None);
    assert_eq!(read("abc\""), None);
    assert_eq!(read(""), None);
}

#[test]
fn pipes_and_braces_inside_quotes_do_not_count() {
    assert_eq!(
        render("{output | lines | join: \" | \"}", &[("output", "a\nb")]),
        "a | b"
    );
    assert_eq!(
        render("{output | lines | join: \"}{\"}", &[("output", "a\nb")]),
        "a}{b"
    );
    assert_eq!(
        render("{output | lines | keep: \"a|b\" | join: \",\"}", &[("output", "a\nb\nc")]),
        "a,b"
    );
    assert_eq!(
        render("{output | lines | join: \"\\\"}\"}", &[("output", "a\nb")]),
        "a\"}b"
    );
}

#[test]
fn closing_brace_is_the_first_outside_quotes() {
    let t = chars_of("{a}b}");
    assert_eq!(find_closing_brace(&t, 1), Some(2));
    assert_eq!(find_closing_brace(&t, 3), Some(4));
    assert_eq!(find_closing_brace(&t, 5), None);
    assert_eq!(find_closing_brace(&t, 9), None);
    let t = chars_of("{a \"}\" }");
    assert_eq!(find_closing_brace(&t, 1), Some(7));
    let t = chars_of("{a \"}");
    assert_eq!(find_closing_brace(&t, 1), None);
}

#[test]
fn expressions_are_cut_at_pipes_outside_quotes() {
    let cut = |s: &str| -> Vec<String> {
        cut_at_pipes(&chars_of(s)).into_iter().map(|c| c.into_iter().collect()).collect()
    };
    assert_eq!(cut(""), vec![""]);
    assert_eq!(cut("a"), vec!["a"]);
    assert_eq!(cut("a|b"), vec!["a", "b"]);
    assert_eq!(cut("a | b: \"x|y\" |"), vec!["a ", " b: \"x|y\" ", ""]);
    assert_eq!(cut("a: \"\\\"|\" | b"), vec!["a: \"\\\"|\" ", " b"]);
}

#[test]
fn evaluate_resolves_and_pipes() {
    let v = vars(&[("output", "x\ny")]);
    let s = sections();
    assert_eq!(evaluate(&chars_of(" output "), &v, &s), "x\ny");
    assert_eq!(evaluate(&chars_of("output|lines|join:\"+\""), &v, &s), "x+y");
    assert_eq!(evaluate(&chars_of("items.count | lines | join: \"+\""), &v, &s), "2");
}
