use asm_front::parser::lex::{lex, LexMachine, Token, TokenType};
use asm_front::util::error_log::{Msg, MsgType};

fn kinds(tokens: &[Token]) -> Vec<TokenType> {
    tokens.iter().map(|t| t.typ).collect()
}

#[test]
fn empty_input_gives_nothing() {
    let (tokens, log) = lex(b"");
    assert!(tokens.is_empty());
    assert!(log.is_empty());
}

#[test]
fn whitespace_only_input_gives_nothing() {
    for input in [&b" "[..], &b"\n"[..], &b"  \n \n\n   "[..], &b"\n\n\n"[..]] {
        let (tokens, log) = lex(input);
        assert!(tokens.is_empty());
        assert!(log.is_empty());
        assert_eq!(log.messages().len(), 0);
    }
}

#[test]
fn newline_resets_column() {
    let (tokens, log) = lex(b"dat\nw 1 2");
    assert!(log.is_empty());
    assert_eq!(kinds(&tokens), vec![TokenType::Dat, TokenType::W, TokenType::Num, TokenType::Num]);
    assert_eq!(tokens[1].typ, TokenType::W);
    assert_eq!(tokens[1].offset, 4);
    assert_eq!(tokens[1].row, 1);
    assert_eq!(tokens[1].col, 0);
}

#[test]
fn tokens_carry_exact_positions_and_lexemes() {
    let (tokens, log) = lex(b"  dat w 12\n\n   ADD foo_1,(7)\n-x");
    assert!(log.is_empty());
    let expected = vec![
        Token { typ: TokenType::Dat, lexeme: b"dat", offset: 2, row: 0, col: 2 },
        Token { typ: TokenType::W, lexeme: b"w", offset: 6, row: 0, col: 6 },
        Token { typ: TokenType::Num, lexeme: b"12", offset: 8, row: 0, col: 8 },
        Token { typ: TokenType::Add, lexeme: b"ADD", offset: 15, row: 2, col: 3 },
        Token { typ: TokenType::Ident, lexeme: b"foo_1", offset: 19, row: 2, col: 7 },
        Token { typ: TokenType::Comma, lexeme: b",", offset: 24, row: 2, col: 12 },
        Token { typ: TokenType::LParen, lexeme: b"(", offset: 25, row: 2, col: 13 },
        Token { typ: TokenType::Num, lexeme: b"7", offset: 26, row: 2, col: 14 },
        Token { typ: TokenType::RParen, lexeme: b")", offset: 27, row: 2, col: 15 },
        Token { typ: TokenType::Ident, lexeme: b"-x", offset: 29, row: 3, col: 0 },
    ];
    assert_eq!(tokens, expected);
}

#[test]
fn lexeme_is_the_source_at_the_offset() {
    let input = b"dat w 40 255\ndat w 1 2";
    let (tokens, log) = lex(input);
    assert!(log.is_empty());
    assert_eq!(tokens.len(), 8);
    for t in &tokens {
        assert!(!t.lexeme.is_empty());
        assert_eq!(t.lexeme, &input[t.offset..t.offset + t.lexeme.len()]);
        let before = &input[..t.offset];
        let row = before.iter().filter(|&&c| c == b'\n').count();
        let col = before.iter().rev().take_while(|&&c| c != b'\n').count();
        assert_eq!(t.row, row);
        assert_eq!(t.col, col);
    }
}

#[test]
fn every_punctuation_byte_is_its_own_token() {
    let (tokens, log) = lex(b"(){}#,:!@$&");
    assert!(log.is_empty());
    assert_eq!(
        kinds(&tokens),
        vec![
            TokenType::LParen,
            TokenType::RParen,
            TokenType::LBrace,
            TokenType::RBrace,
            TokenType::Hash,
            TokenType::Comma,
            TokenType::Colon,
            TokenType::Bang,
            TokenType::At,
            TokenType::Dollar,
            TokenType::Amp,
        ]
    );
    for (i, t) in tokens.iter().enumerate() {
        assert_eq!(t.offset, i);
        assert_eq!(t.col, i);
        assert_eq!(t.row, 0);
        assert_eq!(t.lexeme.len(), 1);
    }
}

#[test]
fn keywords_are_matched_exactly() {
    let (tokens, log) = lex(b"dat ADD w");
    assert!(log.is_empty());
    assert_eq!(kinds(&tokens), vec![TokenType::Dat, TokenType::Add, TokenType::W]);
}

#[test]
fn near_keywords_are_identifiers() {
    let (tokens, log) = lex(b"Dat DAT add Add W data da ww wx w1 w_ dat-");
    assert!(log.is_empty());
    assert_eq!(tokens.len(), 12);
    for t in &tokens {
        assert_eq!(t.typ, TokenType::Ident);
    }
    assert_eq!(tokens[8].lexeme, b"wx");
    assert_eq!(tokens[11].lexeme, b"dat-");
}

#[test]
fn identifiers_may_start_with_underscore_or_hyphen() {
    let (tokens, log) = lex(b"_ - _a-b9 -9 a--");
    assert!(log.is_empty());
    assert_eq!(kinds(&tokens), vec![TokenType::Ident; 5]);
    assert_eq!(tokens[2].lexeme, b"_a-b9");
    assert_eq!(tokens[3].lexeme, b"-9");
}

#[test]
fn digits_end_where_a_letter_starts() {
    let (tokens, log) = lex(b"9abc abc9 007");
    assert!(log.is_empty());
    assert_eq!(
        kinds(&tokens),
        vec![TokenType::Num, TokenType::Ident, TokenType::Ident, TokenType::Num]
    );
    assert_eq!(tokens[0].lexeme, b"9");
    assert_eq!(tokens[1].lexeme, b"abc");
    assert_eq!(tokens[1].offset, 1);
    assert_eq!(tokens[2].lexeme, b"abc9");
    assert_eq!(tokens[3].lexeme, b"007");
}

#[test]
fn a_long_digit_run_is_one_token() {
    let (tokens, log) = lex(b"123456789012345678901234567890");
    assert!(log.is_empty());
    assert_eq!(tokens.len(), 1);
    assert_eq!(tokens[0].typ, TokenType::Num);
    assert_eq!(tokens[0].lexeme.len(), 30);
}

#[test]
fn tokens_need_no_whitespace_between_them() {
    let (tokens, log) = lex(b"a(b)#1:x");
    assert!(log.is_empty());
    assert_eq!(
        kinds(&tokens),
        vec![
            TokenType::Ident,
            TokenType::LParen,
            TokenType::Ident,
            TokenType::RParen,
            TokenType::Hash,
            TokenType::Num,
            TokenType::Colon,
            TokenType::Ident,
        ]
    );
}

#[test]
fn closing_bracket_is_no_token() {
    let (tokens, log) = lex(b"dat w ] 4");
    assert_eq!(kinds(&tokens), vec![TokenType::Dat, TokenType::W]);
    assert!(!log.is_empty());
    assert_eq!(log.messages(), &[Msg::new(MsgType::LexNoTokenFound, 6, 0, 6)]);
}

#[test]
fn closing_bracket_alone_is_reported_at_the_start() {
    let (tokens, log) = lex(b"]");
    assert!(tokens.is_empty());
    assert_eq!(log.messages(), &[Msg::new(MsgType::LexNoTokenFound, 0, 0, 0)]);
}

#[test]
fn unknown_byte_is_reported_with_row_and_column() {
    let (tokens, log) = lex(b"dat w 1 2\n  dat ] w");
    assert_eq!(tokens.len(), 5);
    assert_eq!(tokens[4].typ, TokenType::Dat);
    assert_eq!(log.messages(), &[Msg::new(MsgType::LexNoTokenFound, 16, 1, 6)]);
}

#[test]
fn scan_stops_at_the_first_unknown_byte() {
    let (tokens, log) = lex(b"a ] b ] c [");
    assert_eq!(kinds(&tokens), vec![TokenType::Ident]);
    assert_eq!(log.messages().len(), 1);
    assert_eq!(log.messages()[0], Msg::new(MsgType::LexNoTokenFound, 2, 0, 2));
    let (prefix_tokens, prefix_log) = lex(b"a ");
    assert_eq!(tokens, prefix_tokens);
    assert!(prefix_log.is_empty());
}

#[test]
fn unknown_byte_right_behind_a_word_is_found() {
    let (tokens, log) = lex(b"ab]cd");
    assert_eq!(tokens.len(), 1);
    assert_eq!(tokens[0].lexeme, b"ab");
    assert_eq!(log.messages(), &[Msg::new(MsgType::LexNoTokenFound, 2, 0, 2)]);
}

#[test]
fn tab_and_carriage_return_are_no_whitespace() {
    let (tokens, log) = lex(b"dat\tw");
    assert_eq!(kinds(&tokens), vec![TokenType::Dat]);
    assert_eq!(log.messages(), &[Msg::new(MsgType::LexNoTokenFound, 3, 0, 3)]);
    let (tokens, log) = lex(b"dat\r\nw");
    assert_eq!(kinds(&tokens), vec![TokenType::Dat]);
    assert_eq!(log.messages(), &[Msg::new(MsgType::LexNoTokenFound, 3, 0, 3)]);
}

#[test]
fn bytes_beyond_ascii_are_unknown() {
    let (tokens, log) = lex(&[b'a', b' ', 0xc3, 0xa9]);
    assert_eq!(tokens.len(), 1);
    assert_eq!(log.messages(), &[Msg::new(MsgType::LexNoTokenFound, 2, 0, 2)]);
    let (tokens, log) = lex(&[0u8]);
    assert!(tokens.is_empty());
    assert_eq!(log.messages(), &[Msg::new(MsgType::LexNoTokenFound, 0, 0, 0)]);
}

#[test]
fn lexing_twice_gives_the_same() {
    for input in [&b"dat w 4 255\n ADD x"[..], &b"dat ] w"[..], &b""[..], &b" \n "[..]] {
        let (tokens1, log1) = lex(input);
        let (tokens2, log2) = lex(input);
        assert_eq!(tokens1, tokens2);
        assert_eq!(log1.messages(), log2.messages());
    }
}

#[test]
fn lexing_equal_bytes_in_two_buffers_gives_the_same() {
    let first = b"dat w 1 2\n@".to_vec();
    let second = first.clone();
    let (tokens1, log1) = lex(&first);
    let (tokens2, log2) = lex(&second);
    assert_eq!(tokens1, tokens2);
    assert_eq!(log1.messages(), log2.messages());
}

#[test]
fn new_machine_skips_leading_whitespace() {
    let mut machine = LexMachine::new(b" \n  dat");
    machine.lex_next_token();
    let (tokens, log) = machine.into_parts();
    assert!(log.is_empty());
    assert_eq!(tokens, vec![Token { typ: TokenType::Dat, lexeme: b"dat", offset: 4, row: 1, col: 2 }]);
}

#[test]
fn next_token_takes_one_token_at_a_time() {
    let mut machine = LexMachine::new(b"dat w");
    machine.lex_next_token();
    machine.lex_next_token();
    let (tokens, log) = machine.into_parts();
    assert!(log.is_empty());
    assert_eq!(kinds(&tokens), vec![TokenType::Dat, TokenType::W]);
    assert_eq!(tokens[1].offset, 4);
}

#[test]
fn next_token_past_the_end_is_reported() {
    let mut machine = LexMachine::new(b"  dat \n");
    machine.lex_next_token();
    machine.lex_next_token();
    let (tokens, log) = machine.into_parts();
    assert_eq!(tokens.len(), 1);
    assert_eq!(log.messages(), &[Msg::new(MsgType::LexAttemptedToRunOffEndOfInput, 7, 1, 0)]);
}

#[test]
fn next_token_on_empty_input_is_reported() {
    let mut machine = LexMachine::new(b"");
    machine.lex_next_token();
    let (tokens, log) = machine.into_parts();
    assert!(tokens.is_empty());
    assert_eq!(log.messages(), &[Msg::new(MsgType::LexAttemptedToRunOffEndOfInput, 0, 0, 0)]);
}

#[test]
fn next_token_does_not_consume_an_unknown_byte() {
    let mut machine = LexMachine::new(b"] dat");
    machine.lex_next_token();
    machine.lex_next_token();
    let (tokens, log) = machine.into_parts();
    assert!(tokens.is_empty());
    assert_eq!(
        log.messages(),
        &[
            Msg::new(MsgType::LexNoTokenFound, 0, 0, 0),
            Msg::new(MsgType::LexNoTokenFound, 0, 0, 0),
        ]
    );
}

#[test]
fn lex_all_goes_to_the_end() {
    let mut machine = LexMachine::new(b"dat w 4 255");
    machine.lex_all();
    let (tokens, log) = machine.into_parts();
    assert!(log.is_empty());
    assert_eq!(tokens.len(), 4);
}

#[test]
fn lex_all_does_nothing_once_something_was_reported() {
    let mut machine = LexMachine::new(b"] dat");
    machine.lex_next_token();
    machine.lex_all();
    let (tokens, log) = machine.into_parts();
    assert!(tokens.is_empty());
    assert_eq!(log.messages().len(), 1);
}

#[test]
fn lex_all_continues_after_single_steps() {
    let mut machine = LexMachine::new(b"dat w 4 ] 5");
    machine.lex_next_token();
    machine.lex_all();
    let (tokens, log) = machine.into_parts();
    assert_eq!(kinds(&tokens), vec![TokenType::Dat, TokenType::W, TokenType::Num]);
    assert_eq!(log.messages(), &[Msg::new(MsgType::LexNoTokenFound, 8, 0, 8)]);
}

#[test]
fn message_from_machine_carries_the_cursor() {
    let mut machine = LexMachine::new(b"a\n b");
    machine.lex_next_token();
    let msg = Msg::new_from_lex_machine(MsgType::LexNoTokenFound, &machine);
    assert_eq!(msg, Msg::new(MsgType::LexNoTokenFound, 3, 1, 1));
}

#[test]
fn ident_chars_are_letters_underscore_hyphen_and_later_digits() {
    for c in 0u8..=255 {
        let letter = c.is_ascii_alphabetic();
        let mark = c == b'_' || c == b'-';
        assert_eq!(LexMachine::is_valid_ident_char(c, true), letter || mark);
        assert_eq!(
            LexMachine::is_valid_ident_char(c, false),
            letter || mark || c.is_ascii_digit()
        );
    }
}
