use comunicacao::chat_window::{text_rows, Area, ChatWindow, KeyPress};
use comunicacao::utilities::{
    Client, Conexao, Cor, FormattedLine, IdAllocator, Message, Pessoa, SpanStyle, TipoMensagem,
};

fn cor() -> Cor {
    Cor { hue_bits: 1, saturation_bits: 2, lightness_bits: 3 }
}

fn pessoa(nome: &str, id: u32) -> Pessoa {
    Pessoa { nome: nome.to_string(), id, cor: cor() }
}

fn spans(line: &FormattedLine) -> Vec<(SpanStyle, String)> {
    line.spans.iter().map(|s| (s.style, s.content.clone())).collect()
}

#[test]
fn ids_are_handed_out_in_order() {
    let mut ids = IdAllocator::new();
    let a = Pessoa::new("a".to_string(), &mut ids, cor());
    let b = Pessoa::new("b".to_string(), &mut ids, cor());
    let c = Client::new("c".to_string(), 42u8, &mut ids, cor());
    assert_eq!((a.id, b.id, c.pessoa.id), (0, 1, 2));
    assert_eq!(c.conexao, 42);
    assert_eq!(c.pessoa.nome, "c");
    assert_eq!(c.display_text(), "c");
    assert_ne!(a.id, b.id);
}

#[test]
fn ids_distinct_law() {
    let mut ids = IdAllocator::new();
    let got: Vec<u32> = (0..50).map(|_| ids.allocate()).collect();
    for i in 0..got.len() {
        for j in (i + 1)..got.len() {
            assert_ne!(got[i], got[j]);
        }
    }
}

#[test]
fn conexao_keeps_its_parts() {
    let c = Conexao::new("sala".to_string(), 7u16);
    assert_eq!(c.nome, "sala");
    assert_eq!(c.conexao, 7);
}

#[test]
fn formatted_lines() {
    let e = Message::new(pessoa("ana", 1), TipoMensagem::Entrada).formatted();
    assert_eq!(
        spans(&e),
        vec![
            (SpanStyle::AuthorColor, "ana".to_string()),
            (SpanStyle::LightBlue, " entrou no chat!...".to_string()),
        ]
    );
    let s = Message::new(pessoa("ana", 1), TipoMensagem::Saida).formatted();
    assert_eq!(
        spans(&s),
        vec![
            (SpanStyle::AuthorColor, "ana".to_string()),
            (SpanStyle::Red, " saiu no chat!...".to_string()),
        ]
    );
    let c = Message::new(pessoa("ana", 1), TipoMensagem::Chat("oi  \n".to_string())).formatted();
    assert_eq!(
        spans(&c),
        vec![
            (SpanStyle::AuthorColor, "ana".to_string()),
            (SpanStyle::Plain, ": ".to_string()),
            (SpanStyle::Plain, "oi".to_string()),
        ]
    );
    assert_eq!(c.text(), "ana: oi");
}

#[test]
fn display_texts() {
    let p = pessoa("ana\n", 1);
    assert_eq!(
        Message::new(p.clone(), TipoMensagem::Entrada).display_text(),
        "ana entrou no chat!..."
    );
    assert_eq!(Message::new(p.clone(), TipoMensagem::Saida).display_text(), "ana saiu do chat...");
    assert_eq!(
        Message::new(p, TipoMensagem::Chat("bom dia \t".to_string())).display_text(),
        "ana: bom dia"
    );
}

#[test]
fn rows_without_long_words() {
    assert_eq!(text_rows("abc def", 2, 10), 4);
    assert_eq!(text_rows("abcd", 4, 10), 1);
    assert_eq!(text_rows("", 4, 10), 0);
    assert_eq!(text_rows("é", 1, 10), 2);
}

#[test]
fn rows_with_long_words() {
    // "aa" is pending (3 bytes with its space), the long word takes 3 rows,
    // and what follows the last long word is not counted.
    assert_eq!(text_rows("aa bbbbbbbbbbbb cc", 4, 5), 4);
    assert_eq!(text_rows("bbbbbb", 4, 5), 2);
    assert_eq!(text_rows("a bbbbbb c dddddd", 1, 5), 2 + 6 + 2 + 6);
}

fn window_with(texts: &[&str]) -> ChatWindow {
    let mut w = ChatWindow::new(None);
    for t in texts {
        w.receive_message(Message::new(pessoa("ana", 1), TipoMensagem::Chat(t.to_string())));
    }
    w
}

#[test]
fn visible_lines_keep_newest_that_fit() {
    // each "ana: xx" line is 7 bytes: 1 row at width 12 (10 columns).
    let w = window_with(&["01", "02", "03", "04", "05"]);
    let lines = w.visible_lines(12, 5);
    // at most 4 messages, 3 rows of budget: the 3 newest, oldest first.
    let texts: Vec<String> = lines.iter().map(|l| l.text()).collect();
    assert_eq!(texts, vec!["ana: 03", "ana: 04", "ana: 05"]);
}

#[test]
fn visible_lines_stop_at_first_overflow() {
    // at 5 columns each 7-byte line takes 2 rows; 4 rows of budget hold two.
    let w = window_with(&["ab", "cd", "ef"]);
    let lines = w.visible_lines(7, 6);
    let texts: Vec<String> = lines.iter().map(|l| l.text()).collect();
    assert_eq!(texts, vec!["ana: cd", "ana: ef"]);
    // with a 3-byte threshold "ana:" is a long word: one row each.
    let texts: Vec<String> = w.visible_lines(7, 5).iter().map(|l| l.text()).collect();
    assert_eq!(texts, vec!["ana: ab", "ana: cd", "ana: ef"]);
    assert!(w.visible_lines(7, 1).is_empty());
    assert!(ChatWindow::new(None).visible_lines(0, 3).is_empty());
}

#[test]
fn layout_of_a_terminal() {
    let w = window_with(&["01", "02"]);
    let f = w
        .layout_frame(Area { x: 0, y: 0, width: 80, height: 24 })
        .expect("an 80x24 terminal lays out");
    assert_eq!(f.message_area, Area { x: 0, y: 0, width: 80, height: 21 });
    assert_eq!(f.send_area, Area { x: 0, y: 21, width: 80, height: 3 });
    let texts: Vec<String> = f.lines.iter().map(|l| l.text()).collect();
    assert_eq!(texts, vec!["ana: 01", "ana: 02"]);
}

#[test]
fn layout_refuses_a_narrow_area() {
    let w = window_with(&["01"]);
    assert!(w.layout_frame(Area { x: 0, y: 0, width: 2, height: 24 }).is_none());
    assert!(ChatWindow::new(None).layout_frame(Area { x: 0, y: 0, width: 2, height: 24 }).is_some());
}

#[test]
fn escape_quits_other_keys_tick() {
    let mut w = ChatWindow::new(None);
    assert!(w.draw(None));
    assert!(w.draw(Some(KeyPress { is_press: true, is_esc: false })));
    assert!(w.draw(Some(KeyPress { is_press: false, is_esc: true })));
    assert_eq!(w.tick, 3);
    assert!(!w.draw(Some(KeyPress { is_press: true, is_esc: true })));
    assert_eq!(w.tick, 3);
}

#[test]
fn room_title_names_the_address() {
    assert_eq!(
        ChatWindow::new(Some("10.0.0.2".to_string())).room_title(),
        Some("IP da sala: 10.0.0.2".to_string())
    );
    assert_eq!(ChatWindow::new(None).room_title(), None);
}

#[test]
fn layout_of_small_terminals() {
    let w = ChatWindow::new(None);
    let f = w.layout_frame(Area { x: 2, y: 1, width: 40, height: 5 }).unwrap();
    assert_eq!(f.message_area, Area { x: 2, y: 1, width: 40, height: 3 });
    assert_eq!(f.send_area, Area { x: 2, y: 4, width: 40, height: 2 });
    let f = w.layout_frame(Area { x: 0, y: 0, width: 40, height: 6 }).unwrap();
    assert_eq!(f.message_area, Area { x: 0, y: 0, width: 40, height: 3 });
    assert_eq!(f.send_area, Area { x: 0, y: 3, width: 40, height: 3 });
    let f = w.layout_frame(Area { x: 0, y: 0, width: 40, height: 2 }).unwrap();
    assert_eq!(f.message_area, Area { x: 0, y: 0, width: 40, height: 2 });
    assert_eq!(f.send_area, Area { x: 0, y: 2, width: 40, height: 0 });
    assert!(w.layout_frame(Area { x: 0, y: 0, width: 40, height: 0 }).is_none());
}
