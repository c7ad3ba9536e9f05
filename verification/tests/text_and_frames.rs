use comunicacao::framing::{
    decode_frame, decode_frame_text, frame_message, frame_text_message, greeting,
    greeting_body_len, FrameError,
};
use comunicacao::modo::Modo;
use comunicacao::text::{
    chars_of, div_ceil, is_whitespace, strip_line_breaks, trim, trim_end, utf8_len_within,
    utf8_width, word_byte_lengths,
};

#[test]
fn modo_servidor_from_s() {
    assert_eq!(Modo::from_string("s".to_string()), Ok(Modo::Servidor));
    assert_eq!(Modo::from_string("Servidor\n".to_string()), Ok(Modo::Servidor));
    assert_eq!(Modo::from_string("S".to_string()), Ok(Modo::Servidor));
}

#[test]
fn modo_cliente_from_c_or_blank() {
    assert_eq!(Modo::from_string("c\n".to_string()), Ok(Modo::Cliente));
    assert_eq!(Modo::from_string("Cliente".to_string()), Ok(Modo::Cliente));
    assert_eq!(Modo::from_string("".to_string()), Ok(Modo::Cliente));
    assert_eq!(Modo::from_string(" \t\r\n".to_string()), Ok(Modo::Cliente));
    assert_eq!(Modo::from_string("\u{3000}\u{a0}".to_string()), Ok(Modo::Cliente));
}

#[test]
fn modo_invalid() {
    assert_eq!(Modo::from_string("x".to_string()), Err("Modo inválido"));
    assert_eq!(Modo::from_string(" s".to_string()), Err("Modo inválido"));
    assert_eq!(Modo::from_string("\u{17f}".to_string()), Err("Modo inválido"));
}

#[test]
fn trims() {
    assert_eq!(trim("  ana \n"), "ana");
    assert_eq!(trim("\u{2003}x y\u{3000}"), "x y");
    assert_eq!(trim(" \t "), "");
    assert_eq!(trim_end("  oi  \r\n"), "  oi");
    assert_eq!(trim_end(""), "");
    assert_eq!(trim_end("é\u{85}"), "é");
}

#[test]
fn whitespace_classes() {
    assert!(is_whitespace('\u{0B}'));
    assert!(is_whitespace('\u{2028}'));
    assert!(!is_whitespace('\u{200B}'));
    assert!(!is_whitespace('a'));
}

#[test]
fn line_breaks_are_dropped() {
    assert_eq!(strip_line_breaks("ana\n"), "ana");
    assert_eq!(strip_line_breaks("a\r\nb\nc\r"), "abc\r");
    assert_eq!(strip_line_breaks("\r\r\n"), "\r");
    assert_eq!(strip_line_breaks(""), "");
}

#[test]
fn utf8_measures() {
    assert_eq!(utf8_width('a'), 1);
    assert_eq!(utf8_width('é'), 2);
    assert_eq!(utf8_width('€'), 3);
    assert_eq!(utf8_width('😀'), 4);
    assert!(utf8_len_within("é€", 5));
    assert!(!utf8_len_within("é€", 4));
    assert_eq!(chars_of("aé"), vec!['a', 'é']);
    assert_eq!(div_ceil(7, 2), 4);
    assert_eq!(div_ceil(8, 2), 4);
    assert_eq!(div_ceil(0, 3), 0);
}

#[test]
fn words_and_their_bytes() {
    let (lens, total) = word_byte_lengths(&chars_of("  ab\tcé \n d"));
    assert_eq!(lens, vec![2, 3, 1]);
    assert_eq!(total, 12);
    let (lens, total) = word_byte_lengths(&chars_of(""));
    assert!(lens.is_empty());
    assert_eq!(total, 0);
}

#[test]
fn frame_layout() {
    assert_eq!(frame_message(b"hi"), vec![0, 0, 0, 2, b'h', b'i']);
    assert_eq!(frame_text_message("é"), vec![0, 0, 0, 2, 0xC3, 0xA9]);
    let big = vec![7u8; 300];
    let f = frame_message(&big);
    assert_eq!(&f[..4], &[0, 0, 1, 44]);
    assert_eq!(f.len(), 304);
}

#[test]
fn frame_roundtrip_law() {
    let mut buf = frame_text_message("olá, mundo");
    buf.extend_from_slice(&[0u8; 64]);
    assert_eq!(decode_frame_text(&buf), Ok("olá, mundo".to_string()));
    let mut buf = frame_message(&[1, 2, 3]);
    buf.push(9);
    assert_eq!(decode_frame(&buf), Ok(vec![1, 2, 3]));
}

#[test]
fn frame_errors() {
    assert_eq!(decode_frame(&[0, 0, 0]), Err(FrameError::MissingHeader));
    assert_eq!(decode_frame(&[0, 0, 0, 5, 1, 2]), Err(FrameError::Truncated));
    assert_eq!(decode_frame(&[255, 255, 255, 255]), Err(FrameError::Truncated));
    assert_eq!(decode_frame_text(&[0, 0, 0, 1, 0xFF]), Err(FrameError::InvalidUtf8));
    assert_eq!(decode_frame_text(&[0, 0, 0, 0]), Ok(String::new()));
}

#[test]
fn greeting_roundtrip_law() {
    let g = greeting("{\"id\":3}");
    assert_eq!(&g[..2], &[0, 8]);
    assert_eq!(&g[2..], b"{\"id\":3}");
    assert_eq!(greeting_body_len(g[0], g[1]), 8);
    assert_eq!(greeting_body_len(1, 2), 258);
}

#[test]
fn modo_ignores_ascii_case_law() {
    for s in ["servidor", "cliente", "xyz", "  ", "Sala", "cAsa"] {
        let lower = Modo::from_string(s.to_ascii_lowercase());
        let upper = Modo::from_string(s.to_ascii_uppercase());
        assert_eq!(lower, upper);
        assert_eq!(lower, Modo::from_string(s.to_string()));
    }
}

#[test]
fn modo_ignores_what_follows_law() {
    assert_eq!(Modo::from_string("s mais texto\n".to_string()), Ok(Modo::Servidor));
    assert_eq!(Modo::from_string("c\r\n".to_string()), Ok(Modo::Cliente));
    assert_eq!(Modo::from_string("x c".to_string()), Err("Modo inválido"));
    assert_eq!(Modo::from_string("\u{3000}x".to_string()), Err("Modo inválido"));
}
