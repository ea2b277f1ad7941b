use p2p_chat::command::{
    encode_command, is_valid_command, CMD_BAN, CMD_EXCEPT, CMD_LIST, CMD_PING, CMD_TO,
};

fn with_code(code: u8, rest: &str) -> Option<Vec<u8>> {
    let mut bytes = vec![code];
    bytes.extend_from_slice(rest.as_bytes());
    Some(bytes)
}

#[test]
fn list_is_one_byte() {
    assert_eq!(encode_command("\\list"), Some(vec![0x01]));
}

#[test]
fn ping_is_one_byte() {
    assert_eq!(encode_command("\\ping"), Some(vec![0x05]));
}

#[test]
fn list_ignores_what_follows() {
    assert_eq!(encode_command("\\list all of them"), Some(vec![CMD_LIST]));
    assert_eq!(encode_command("\\ping now"), Some(vec![CMD_PING]));
}

#[test]
fn white_space_around_a_command_is_dropped() {
    assert_eq!(encode_command("  \\ping \t\n"), Some(vec![CMD_PING]));
}

#[test]
fn ban_takes_a_target() {
    assert_eq!(encode_command("\\ban bob"), with_code(CMD_BAN, "bob"));
    assert_eq!(encode_command("\\ban bob and more"), with_code(CMD_BAN, "bob"));
}

#[test]
fn ban_without_a_target_is_no_command() {
    assert_eq!(encode_command("\\ban"), None);
    assert_eq!(encode_command("\\ban   "), None);
}

#[test]
fn to_takes_a_target_and_a_text() {
    assert_eq!(encode_command("\\to bob hello"), with_code(CMD_TO, "bob hello"));
    assert_eq!(
        encode_command("\\to bob hello brave new world"),
        with_code(CMD_TO, "bob hello brave new world")
    );
}

#[test]
fn to_puts_one_space_between_words() {
    assert_eq!(
        encode_command("\\to   bob \t hello    world  "),
        with_code(CMD_TO, "bob hello world")
    );
}

#[test]
fn to_without_a_text_keeps_the_separating_space() {
    assert_eq!(encode_command("\\to bob"), with_code(CMD_TO, "bob "));
}

#[test]
fn to_without_a_target_is_no_command() {
    assert_eq!(encode_command("\\to"), None);
}

#[test]
fn except_takes_a_target_and_a_text() {
    assert_eq!(encode_command("\\except bob hi there"), with_code(CMD_EXCEPT, "bob hi there"));
    assert_eq!(encode_command("\\except bob"), with_code(CMD_EXCEPT, "bob "));
    assert_eq!(encode_command("\\except"), None);
}

#[test]
fn an_unknown_command_is_no_command() {
    assert_eq!(encode_command("\\dance"), None);
    assert_eq!(encode_command("\\LIST"), None);
    assert_eq!(encode_command("\\listing"), None);
    assert_eq!(encode_command("list"), None);
    assert_eq!(encode_command("hello \\list"), None);
}

#[test]
fn a_line_without_words_is_no_command() {
    assert_eq!(encode_command(""), None);
    assert_eq!(encode_command("   \t "), None);
}

#[test]
fn words_are_split_at_unicode_white_space() {
    assert_eq!(encode_command("\\ban\u{3000}bob"), with_code(CMD_BAN, "bob"));
    assert_eq!(encode_command("\\to\u{a0}bob\u{2003}hi\u{85}you"), with_code(CMD_TO, "bob hi you"));
}

#[test]
fn targets_and_texts_are_sent_as_utf8() {
    assert_eq!(encode_command("\\ban zoë"), with_code(CMD_BAN, "zoë"));
    assert_eq!(encode_command("\\to 진 안녕 €5 𝄞"), with_code(CMD_TO, "진 안녕 €5 𝄞"));
}

#[test]
fn encoding_agrees_with_splitting_by_std() {
    let lines = [
        "\\to a b c",
        " \\except  x   y ",
        "\\ban q",
        "\\to\tt\tu",
        "\\except é ü ß",
    ];
    for line in lines {
        let mut parts = line.trim().split_whitespace();
        let command = parts.next().unwrap();
        let target = parts.next().unwrap();
        let text = parts.collect::<Vec<_>>().join(" ");
        let mut expected = vec![match command {
            "\\to" => CMD_TO,
            "\\except" => CMD_EXCEPT,
            _ => CMD_BAN,
        }];
        expected.extend_from_slice(target.as_bytes());
        if command != "\\ban" {
            expected.push(b' ');
            expected.extend_from_slice(text.as_bytes());
        }
        assert_eq!(encode_command(line), Some(expected));
    }
}

#[test]
fn codes_one_to_five_are_commands() {
    for code in [CMD_LIST, CMD_TO, CMD_EXCEPT, CMD_BAN, CMD_PING] {
        assert!(is_valid_command(code));
    }
    for code in 1u8..=5 {
        assert!(is_valid_command(code));
    }
}

#[test]
fn other_bytes_are_no_commands() {
    assert!(!is_valid_command(0));
    for code in 6u8..=255 {
        assert!(!is_valid_command(code));
    }
}

#[test]
fn an_encoded_command_starts_with_a_valid_code() {
    for line in ["\\list", "\\ping", "\\ban x", "\\to x y", "\\except x y"] {
        let bytes = encode_command(line).unwrap();
        assert!(is_valid_command(bytes[0]));
    }
}
