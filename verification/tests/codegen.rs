use botscript::codegen::{generate_statement, DRIVE_SPEED, INDENT, TIMEOUT, TRACK_WIDTH, TURN_SPEED};
use botscript::{generate_java_from_tokens, Token};

#[test]
fn names_of_the_template() {
    assert_eq!(INDENT, "        ");
    assert_eq!(DRIVE_SPEED, "DRIVE_SPEED");
    assert_eq!(TURN_SPEED, "TURN_SPEED");
    assert_eq!(TRACK_WIDTH, "TRACK_WIDTH");
    assert_eq!(TIMEOUT, "5.0");
}

#[test]
fn drive_statement() {
    assert_eq!(
        generate_statement(Token::Drive(10)),
        Some("        encoderDrive(DRIVE_SPEED, 10, 10, 5.0);".to_string())
    );
    assert_eq!(
        generate_statement(Token::Drive(-3)),
        Some("        encoderDrive(DRIVE_SPEED, -3, -3, 5.0);".to_string())
    );
}

#[test]
fn turn_statement() {
    assert_eq!(
        generate_statement(Token::Turn(90)),
        Some(
            "        encoderDrive(TURN_SPEED, (Math.PI * TRACK_WIDTH * 90 / 180), -(Math.PI * TRACK_WIDTH * 90 / 180), 5.0);"
                .to_string()
        )
    );
    assert_eq!(
        generate_statement(Token::Turn(-45)),
        Some(
            "        encoderDrive(TURN_SPEED, (Math.PI * TRACK_WIDTH * -45 / 180), -(Math.PI * TRACK_WIDTH * -45 / 180), 5.0);"
                .to_string()
        )
    );
}

#[test]
fn delay_statement() {
    assert_eq!(generate_statement(Token::Delay(500)), Some("        sleep(500);".to_string()));
    assert_eq!(generate_statement(Token::Delay(0)), Some("        sleep(0);".to_string()));
}

#[test]
fn comment_has_no_statement() {
    assert_eq!(generate_statement(Token::Comment), None);
}

#[test]
fn statements_are_those_of_the_formats() {
    for n in [i32::MIN, -7, 0, 1, 360, i32::MAX] {
        assert_eq!(
            generate_java_from_tokens(vec![Token::Drive(n), Token::Turn(n), Token::Delay(n)]),
            vec![
                format!("        encoderDrive(DRIVE_SPEED, {}, {}, 5.0);", n, n),
                format!(
                    "        encoderDrive(TURN_SPEED, (Math.PI * TRACK_WIDTH * {} / 180), -(Math.PI * TRACK_WIDTH * {} / 180), 5.0);",
                    n, n
                ),
                format!("        sleep({});", n),
            ]
        );
    }
}

#[test]
fn comments_are_dropped_and_the_order_is_kept() {
    let lines = generate_java_from_tokens(vec![
        Token::Comment,
        Token::Drive(5),
        Token::Comment,
        Token::Delay(100),
    ]);
    assert_eq!(
        lines,
        vec![
            "        encoderDrive(DRIVE_SPEED, 5, 5, 5.0);".to_string(),
            "        sleep(100);".to_string(),
        ]
    );
}

#[test]
fn turn_drives_the_right_wheel_against_the_left() {
    let lines = generate_java_from_tokens(vec![Token::Turn(90)]);
    assert_eq!(lines.len(), 1);
    let line = &lines[0];
    let inner = line
        .strip_prefix("        encoderDrive(TURN_SPEED, ")
        .and_then(|rest| rest.strip_suffix(", 5.0);"))
        .expect("a drive at the speed of a turn");
    let parts: Vec<&str> = inner.split(", ").collect();
    assert_eq!(parts.len(), 2);
    assert_eq!(parts[0], "(Math.PI * TRACK_WIDTH * 90 / 180)");
    assert_eq!(parts[1], format!("-{}", parts[0]));
}

#[test]
fn no_tokens_give_no_statements() {
    assert_eq!(generate_java_from_tokens(Vec::new()), Vec::<String>::new());
    assert_eq!(
        generate_java_from_tokens(vec![Token::Comment, Token::Comment]),
        Vec::<String>::new()
    );
}

#[test]
fn statements_of_two_scripts_in_a_row() {
    let first = vec![Token::Drive(1), Token::Comment];
    let second = vec![Token::Turn(2), Token::Delay(3)];
    let mut both = first.clone();
    both.extend(second.iter().copied());
    let mut expected = generate_java_from_tokens(first);
    expected.extend(generate_java_from_tokens(second));
    assert_eq!(generate_java_from_tokens(both), expected);
}

#[test]
fn one_statement_for_each_token_that_is_no_comment() {
    let tokens = vec![Token::Delay(1), Token::Drive(2), Token::Turn(3), Token::Delay(4)];
    let lines = generate_java_from_tokens(tokens.clone());
    assert_eq!(lines.len(), tokens.len());
    for (token, line) in tokens.iter().zip(lines.iter()) {
        assert_eq!(generate_statement(*token).as_ref(), Some(line));
    }
}
