use lib::shell::{
    command_line_accepted, get_next_word, is_valid_utf8, parse_command, parse_words, shell_action,
    substitute_path, trim, ShellAction,
};

#[test]
fn next_word_splits_at_a_space() {
    let (word, rest) = get_next_word(b"ls -l /bin");
    assert_eq!(word, b"ls".to_vec());
    assert_eq!(rest, b"-l /bin".to_vec());
}

#[test]
fn next_word_without_separator_is_the_whole_input() {
    let (word, rest) = get_next_word(b"echo");
    assert_eq!(word, b"echo".to_vec());
    assert!(rest.is_empty());
}

#[test]
fn parse_words_keeps_empty_words_between_separators() {
    let words = parse_words(b"a  b\n");
    assert_eq!(words, vec![b"a".to_vec(), b"".to_vec(), b"b".to_vec()]);
}

#[test]
fn parse_words_of_empty_input() {
    assert!(parse_words(b"").is_empty());
}

#[test]
fn parse_command_without_redirection() {
    let commands = parse_command(b"cat file.txt\n");
    assert_eq!(commands.len(), 1);
    assert_eq!(commands[0].words, vec![b"cat".to_vec(), b"file.txt".to_vec()]);
    assert!(commands[0].input.is_none());
    assert!(commands[0].output.is_none());
    assert!(!commands[0].append);
}

#[test]
fn parse_command_with_output_redirection() {
    let commands = parse_command(b"echo hi > out.txt \n");
    assert_eq!(commands[0].words, vec![b"echo".to_vec(), b"hi".to_vec()]);
    assert_eq!(commands[0].output, Some(b"out.txt".to_vec()));
    assert!(commands[0].input.is_none());
}

#[test]
fn parse_command_with_input_redirection_keeps_the_sign() {
    let commands = parse_command(b"cat < in.txt");
    assert_eq!(commands[0].words, vec![b"cat".to_vec()]);
    assert_eq!(commands[0].input, Some(b"< in.txt".to_vec()));
    assert!(commands[0].output.is_none());
}

#[test]
fn trim_removes_white_space_at_both_ends() {
    assert_eq!(trim(b" \t name \r\n"), b"name".to_vec());
    assert_eq!(trim(b"   "), b"".to_vec());
}

#[test]
fn substitute_path_prefixes_the_command() {
    let mut full = vec![0u8; 16];
    let result = substitute_path(&mut full, b"/bin/", b"ls");
    assert_eq!(result, b"/bin/ls".to_vec());
    assert_eq!(&full[..7], b"/bin/ls");
    assert_eq!(full[7], 0);
}

#[test]
fn shell_action_for_lines() {
    assert_eq!(shell_action(&parse_command(b"")), ShellAction::Skip);
    assert_eq!(shell_action(&parse_command(b" ls")), ShellAction::Skip);
    assert_eq!(shell_action(&parse_command(b"exit\n")), ShellAction::Exit);
    assert_eq!(shell_action(&parse_command(b"ls /")), ShellAction::Run);
}

#[test]
fn parse_command_splits_words_of_utf8_text() {
    let line = "ls \u{e9}".as_bytes();
    assert!(command_line_accepted(line));
    let commands = parse_command(line);
    assert_eq!(commands[0].words, vec![b"ls".to_vec(), "\u{e9}".as_bytes().to_vec()]);
    assert!(commands[0].input.is_none());
    assert!(commands[0].output.is_none());
}

#[test]
fn parse_command_counts_characters_before_the_sign() {
    let line = "\u{e9} > x".as_bytes();
    assert!(command_line_accepted(line));
    let commands = parse_command(line);
    assert_eq!(commands[0].words, vec!["\u{e9}".as_bytes().to_vec()]);
    assert_eq!(commands[0].output, Some(b"> x".to_vec()));
    assert!(commands[0].input.is_none());
}

#[test]
fn command_lines_that_are_refused() {
    assert!(!command_line_accepted(&[0xffu8, 0x20]));
    assert!(!command_line_accepted("\u{e9}< x".as_bytes()));
    assert!(command_line_accepted(b"cat < in.txt"));
    assert!(command_line_accepted(b""));
}

#[test]
fn utf8_validity() {
    assert!(is_valid_utf8("a\u{e9}\u{20ac}\u{1f600}".as_bytes()));
    assert!(!is_valid_utf8(&[0xc0u8, 0x80]));
    assert!(!is_valid_utf8(&[0xedu8, 0xa0, 0x80]));
    assert!(!is_valid_utf8(&[0xe2u8, 0x82]));
    assert!(!is_valid_utf8(&[0xf4u8, 0x90, 0x80, 0x80]));
}

#[test]
fn trim_removes_unicode_white_space() {
    let text = "\u{3000}\u{a0} name\u{2009}x\u{85}\u{2029}\u{1680}\u{205f}".as_bytes();
    assert_eq!(trim(text), "name\u{2009}x".as_bytes().to_vec());
    assert_eq!(trim("\u{e9}\u{202f}".as_bytes()), "\u{e9}".as_bytes().to_vec());
}
