use botscript::assemble;
use botscript::template::INSERT_LINE;

fn numbered(n: usize) -> Vec<String> {
    (0..n).map(|i| format!("line {}", i)).collect()
}

fn text_of(lines: &[String]) -> String {
    let mut text = lines.join("\n");
    text.push('\n');
    text
}

#[test]
fn insert_line_is_the_fifty_second() {
    assert_eq!(INSERT_LINE, 51);
}

#[test]
fn one_statement_goes_before_the_insert_line() {
    let template = numbered(60);
    let program = assemble(&["X;".to_string()], &text_of(&template));
    let lines: Vec<&str> = program.split('\n').collect();
    assert_eq!(lines.len(), template.len() + 1);
    for i in 0..51 {
        assert_eq!(lines[i], template[i]);
    }
    assert_eq!(lines[51], "X;");
    for i in 51..60 {
        assert_eq!(lines[i + 1], template[i]);
    }
}

#[test]
fn statements_go_in_as_one_block() {
    let template = numbered(55);
    let generated = vec!["A;".to_string(), "B;".to_string(), "C;".to_string()];
    let program = assemble(&generated, &text_of(&template));
    let mut expected = template.clone();
    expected.insert(51, "A;\nB;\nC;".to_string());
    assert_eq!(program, expected.join("\n"));
    let lines: Vec<&str> = program.split('\n').collect();
    assert_eq!(lines.len(), 58);
    assert_eq!(&lines[51..54], &["A;", "B;", "C;"]);
    assert_eq!(lines[50], "line 50");
    assert_eq!(lines[54], "line 51");
}

#[test]
fn short_template_gets_the_statements_at_its_end() {
    let program = assemble(&["X;".to_string()], "one\ntwo\nthree\n");
    assert_eq!(program, "one\ntwo\nthree\nX;");
}

#[test]
fn template_of_exactly_the_insert_line() {
    let template = numbered(51);
    let program = assemble(&["X;".to_string()], &text_of(&template));
    assert_eq!(program, format!("{}\nX;", template.join("\n")));
}

#[test]
fn template_one_line_longer_than_the_insert_line() {
    let template = numbered(52);
    let program = assemble(&["X;".to_string()], &text_of(&template));
    assert_eq!(program, format!("{}\nX;\nline 51", template[..51].join("\n")));
}

#[test]
fn empty_template_gives_the_statements_alone() {
    assert_eq!(assemble(&["X;".to_string(), "Y;".to_string()], ""), "X;\nY;");
}

#[test]
fn no_statements_leave_an_empty_line() {
    assert_eq!(assemble(&[], "one\ntwo\n"), "one\ntwo\n");
    assert_eq!(assemble(&[], ""), "");
    let template = numbered(53);
    let program = assemble(&[], &text_of(&template));
    let mut expected = template.clone();
    expected.insert(51, String::new());
    assert_eq!(program, expected.join("\n"));
}

#[test]
fn line_ends_of_the_template_become_line_feeds() {
    assert_eq!(assemble(&["X;".to_string()], "one\r\ntwo\r\n"), "one\ntwo\nX;");
}

#[test]
fn program_is_what_the_splice_of_std_gives() {
    let templates = [
        String::new(),
        "only".to_string(),
        "a\n\nb\n".to_string(),
        text_of(&numbered(50)),
        text_of(&numbered(51)),
        text_of(&numbered(52)),
        text_of(&numbered(200)),
        numbered(70).join("\r\n"),
    ];
    let blocks: [Vec<String>; 3] =
        [vec![], vec!["X;".to_string()], vec!["X;".to_string(), "Y;".to_string()]];
    for template in &templates {
        for block in &blocks {
            let mut lines: Vec<String> = template.lines().map(String::from).collect();
            let at = 51.min(lines.len());
            lines.splice(at..at, vec![block.join("\n")]);
            assert_eq!(assemble(block, template), lines.join("\n"));
        }
    }
}
