use comunicacao::chat_window::TerminalMessage;
use comunicacao::client::{ClientRead, ClientState};
use comunicacao::framing::{frame_text_message, FrameError};
use comunicacao::server::{ServerState, READ_BUFFER_LEN};
use comunicacao::utilities::{Client, Cor, Message, Pessoa, TipoMensagem};

fn pessoa(nome: &str, id: u32) -> Pessoa {
    Pessoa { nome: nome.to_string(), id, cor: Cor { hue_bits: 0, saturation_bits: 0, lightness_bits: 0 } }
}

fn client(nome: &str, id: u32) -> Client<u32> {
    Client { conexao: id, pessoa: pessoa(nome, id) }
}

fn put(buf: &mut Vec<u8>, bytes: &[u8]) {
    buf[..bytes.len()].copy_from_slice(bytes);
}

fn kinds(s: &ServerState<u32>) -> Vec<(u32, String)> {
    s.mensagens
        .iter()
        .map(|m| {
            let k = match &m.tipo {
                TipoMensagem::Entrada => "in".to_string(),
                TipoMensagem::Saida => "out".to_string(),
                TipoMensagem::Chat(t) => t.clone(),
            };
            (m.autor.id, k)
        })
        .collect()
}

#[test]
fn server_queues_arrivals_and_host_messages() {
    let mut s: ServerState<u32> = ServerState::new(pessoa("host", 0), Some("1.2.3.4".to_string()));
    assert_eq!(s.read_buffer.len(), READ_BUFFER_LEN);
    s.on_new_client(client("ana", 1));
    assert!(s.on_terminal(TerminalMessage::SendMessage("olá".to_string())));
    assert!(s.on_terminal(TerminalMessage::Tick));
    assert!(s.on_terminal(TerminalMessage::Command("/x".to_string())));
    assert!(!s.on_terminal(TerminalMessage::Quit));
    assert_eq!(kinds(&s), vec![(1, "in".to_string()), (0, "olá".to_string())]);
    assert_eq!(s.conexoes.len(), 1);
}

#[test]
fn server_reads_frames_and_departures() {
    let mut s: ServerState<u32> = ServerState::new(pessoa("host", 0), None);
    s.on_new_client(client("ana", 1));
    s.on_new_client(client("bia", 2));
    s.mensagens.clear();
    assert_eq!(s.on_read(0, None), Ok(()));
    put(&mut s.read_buffer, &frame_text_message("oi"));
    assert_eq!(s.on_read(1, Some(6)), Ok(()));
    assert!(s.read_buffer.is_empty());
    assert_eq!(s.on_read(0, Some(0)), Ok(()));
    assert_eq!(kinds(&s), vec![(2, "oi".to_string()), (1, "out".to_string())]);
    assert_eq!(s.idx_remove, vec![0]);
}

#[test]
fn server_refuses_a_bad_frame() {
    let mut s: ServerState<u32> = ServerState::new(pessoa("host", 0), None);
    s.on_new_client(client("ana", 1));
    s.mensagens.clear();
    put(&mut s.read_buffer, &[0, 0, 0, 1, 0xFF]);
    assert_eq!(s.on_read(0, Some(5)), Err(FrameError::InvalidUtf8));
    put(&mut s.read_buffer, &[0, 0x20, 0, 0]);
    assert_eq!(s.on_read(0, Some(4)), Err(FrameError::Truncated));
    s.read_buffer.clear();
    assert_eq!(s.on_read(0, Some(3)), Err(FrameError::MissingHeader));
    assert!(s.mensagens.is_empty());
}

#[test]
fn server_removes_in_order_of_marking() {
    let mut s: ServerState<u32> = ServerState::new(pessoa("host", 0), None);
    for i in 1..=4 {
        s.on_new_client(client("x", i));
    }
    s.idx_remove = vec![0, 2];
    assert_eq!(s.remove_disconnected(), Ok(()));
    // removing index 0 shifts the rest: index 2 is then the fourth participant.
    let ids: Vec<u32> = s.conexoes.iter().map(|c| c.pessoa.id).collect();
    assert_eq!(ids, vec![2, 3]);
    assert!(s.idx_remove.is_empty());
}

#[test]
fn server_refuses_a_removal_past_the_end() {
    let mut s: ServerState<u32> = ServerState::new(pessoa("host", 0), None);
    s.on_new_client(client("a", 1));
    s.on_new_client(client("b", 2));
    s.idx_remove = vec![0, 1];
    assert_eq!(s.remove_disconnected(), Err(()));
    assert_eq!(s.conexoes.len(), 2);
    assert_eq!(s.idx_remove, vec![0, 1]);
}

#[test]
fn deliveries_skip_the_author() {
    let mut s: ServerState<u32> = ServerState::new(pessoa("host", 0), None);
    s.on_new_client(client("a", 1));
    s.on_new_client(client("b", 2));
    s.on_new_client(client("c", 3));
    s.on_terminal(TerminalMessage::SendMessage("oi".to_string()));
    let d = s.take_deliveries();
    assert_eq!(d.len(), 4);
    assert_eq!(d[0].message.autor.id, 1);
    assert_eq!(d[0].recipients, vec![1, 2]);
    assert_eq!(d[1].recipients, vec![0, 2]);
    assert_eq!(d[2].recipients, vec![0, 1]);
    assert_eq!(d[3].recipients, vec![0, 1, 2]);
    assert!(s.mensagens.is_empty());
    assert_eq!(s.chat_window.messages.len(), 4);
    assert_eq!(s.chat_window.messages[3].display_text(), "host: oi");
}

#[test]
fn client_sends_what_it_shows() {
    let mut c = ClientState::new(pessoa("ana", 5));
    assert_eq!(c.take_outgoing(), None);
    assert!(c.on_terminal(TerminalMessage::SendMessage("oi ".to_string())));
    let frame = c.take_outgoing().expect("a waiting message is sent");
    assert_eq!(frame, vec![0, 0, 0, 3, b'o', b'i', b' ']);
    assert!(c.message.is_none());
    assert_eq!(c.chat_window.messages.len(), 1);
    assert_eq!(c.chat_window.messages[0].display_text(), "ana: oi");
    assert!(!c.on_terminal(TerminalMessage::Quit));
}

#[test]
fn client_reads() {
    let mut c = ClientState::new(pessoa("ana", 5));
    assert!(matches!(c.on_read(None), Ok(ClientRead::Nothing)));
    assert!(matches!(c.on_read(Some(0)), Ok(ClientRead::Disconnected)));
    put(&mut c.read_buffer, &frame_text_message("{\"a\":1}"));
    match c.on_read(Some(11)) {
        Ok(ClientRead::Text(t)) => assert_eq!(t, "{\"a\":1}"),
        _ => panic!("a frame was expected"),
    }
    put(&mut c.read_buffer, &[0, 0, 0, 2, 0xC3, 0x28]);
    assert!(matches!(c.on_read(Some(6)), Err(FrameError::InvalidUtf8)));
    c.receive(Message::new(pessoa("bia", 6), TipoMensagem::Entrada));
    assert_eq!(c.chat_window.messages.len(), 1);
}

#[test]
fn what_a_client_sends_the_server_reads() {
    let mut c = ClientState::new(pessoa("ana", 1));
    c.on_terminal(TerminalMessage::SendMessage("bom dia, é só".to_string()));
    let frame = c.take_outgoing().unwrap();
    let mut s: ServerState<u32> = ServerState::new(pessoa("host", 0), None);
    s.on_new_client(client("ana", 1));
    s.mensagens.clear();
    put(&mut s.read_buffer, &frame);
    assert_eq!(s.on_read(0, Some(frame.len())), Ok(()));
    assert_eq!(kinds(&s), vec![(1, "bom dia, é só".to_string())]);
}

#[test]
fn read_buffers_start_zeroed() {
    let s: ServerState<u32> = ServerState::new(pessoa("host", 0), None);
    assert!(s.read_buffer.iter().all(|b| *b == 0));
    let c = ClientState::new(pessoa("ana", 1));
    assert_eq!(c.read_buffer.len(), READ_BUFFER_LEN);
    assert!(c.read_buffer.iter().all(|b| *b == 0));
}

#[test]
fn round_order_law() {
    let mut s: ServerState<u32> = ServerState::new(pessoa("host", 0), None);
    s.on_new_client(client("ana", 1));
    s.take_deliveries();
    s.on_terminal(TerminalMessage::SendMessage("primeiro".to_string()));
    s.on_new_client(client("bia", 2));
    s.on_new_client(client("caio", 3));
    put(&mut s.read_buffer, &frame_text_message("de ana"));
    s.on_read(0, Some(10)).unwrap();
    s.on_read(1, None).unwrap();
    s.on_read(2, Some(0)).unwrap();
    let d = s.take_deliveries();
    let got: Vec<String> = d.iter().map(|x| x.message.display_text()).collect();
    assert_eq!(
        got,
        vec![
            "host: primeiro",
            "bia entrou no chat!...",
            "caio entrou no chat!...",
            "ana: de ana",
            "caio saiu do chat...",
        ]
    );
    let shown: Vec<String> = s.chat_window.messages.iter().map(|m| m.display_text()).collect();
    assert_eq!(shown[0], "ana entrou no chat!...");
    assert_eq!(&shown[1..], &got[..]);
}
