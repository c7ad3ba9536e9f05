//! The joining side's decisions, one event at a time: what it shows, what
//! it sends, and when the room is gone. The caller performs the I/O.
use vstd::prelude::*;
use vstd::utf8::encode_utf8;
use crate::chat_window::{ChatWindow, TerminalMessage};
use crate::framing::{decode_frame_text, frame_bytes, frame_text, frame_text_message, FrameError};
use crate::server::READ_BUFFER_LEN;
use crate::utilities::{Message, MessageView, Pessoa, TipoMensagem, TipoView};

verus! {

/// What a read from the room amounts to.
pub enum ClientRead {
    /// Nothing could be read.
    Nothing,
    /// The room closed the connection.
    Disconnected,
    /// A frame arrived; it carries this text (a message, as JSON).
    Text(String),
}

/// The joining side's state.
pub struct ClientState {
    /// Who this side is, as the room named it.
    pub eu: Pessoa,
    /// The typed message waiting to be sent, if any.
    pub message: Option<String>,
    /// Where reads from the room land.
    pub read_buffer: Vec<u8>,
    /// This side's window.
    pub chat_window: ChatWindow,
}

impl ClientState {
    /// A fresh session of `eu`, with nothing shown and nothing to send.
    pub fn new(eu: Pessoa) -> (r: ClientState)
        ensures
            r.eu@ == eu@,
            r.message is None,
            r.read_buffer@.len() == READ_BUFFER_LEN,
            forall|i: int| 0 <= i < READ_BUFFER_LEN ==> r.read_buffer@[i] == 0u8,
            r.chat_window.ip is None,
            r.chat_window.messages@.len() == 0,
            r.chat_window.tick == 0,
    {
        ClientState {
            eu,
            message: None,
            read_buffer: vec![0u8; READ_BUFFER_LEN],
            chat_window: ChatWindow::new(None),
        }
    }

    /// Handles what the terminal asked for: `false` to quit; a typed message
    /// becomes the one waiting to be sent.
    pub fn on_terminal(&mut self, event: TerminalMessage) -> (keep_going: bool)
        ensures
            keep_going == !(event is Quit),
            event matches TerminalMessage::SendMessage(text) ==> final(self).message
                == Some(text),
            !(event is SendMessage) ==> final(self).message == old(self).message,
            final(self).eu == old(self).eu,
            final(self).read_buffer@ == old(self).read_buffer@,
            final(self).chat_window == old(self).chat_window,
    {
        match event {
            TerminalMessage::Quit => false,
            TerminalMessage::SendMessage(text) => {
                self.message = Some(text);
                true
            },
            _ => true,
        }
    }

    /// What a read from the room into the read buffer amounts to: `None`
    /// when nothing could be read, else the number of bytes read. At 0 bytes
    /// the room is gone; otherwise the buffer holds a frame, whose text is
    /// handed back. A buffer that holds no frame is refused.
    pub fn on_read(&self, amount: Option<usize>) -> (r: Result<ClientRead, FrameError>)
        ensures
            amount is None ==> r matches Ok(ClientRead::Nothing),
            amount == Some(0usize) ==> r matches Ok(ClientRead::Disconnected),
            amount matches Some(n) && n > 0 ==> match frame_text(self.read_buffer@) {
                Ok(t) => r matches Ok(ClientRead::Text(s)) && s@ == t,
                Err(e) => r == Err::<ClientRead, FrameError>(e),
            },
    {
        match amount {
            None => Ok(ClientRead::Nothing),
            Some(n) => {
                if n == 0 {
                    Ok(ClientRead::Disconnected)
                } else {
                    match decode_frame_text(self.read_buffer.as_slice()) {
                        Ok(s) => Ok(ClientRead::Text(s)),
                        Err(e) => Err(e),
                    }
                }
            },
        }
    }

    /// Shows a message that the room sent.
    pub fn receive(&mut self, message: Message)
        ensures
            final(self).chat_window.messages@ == old(self).chat_window.messages@.push(message),
            final(self).chat_window.ip == old(self).chat_window.ip,
            final(self).chat_window.tick == old(self).chat_window.tick,
            final(self).eu == old(self).eu,
            final(self).message == old(self).message,
            final(self).read_buffer@ == old(self).read_buffer@,
    {
        self.chat_window.receive_message(message);
    }

    /// Ends a round: a waiting message is shown as this side's own and its
    /// frame is handed back to be sent; nothing waits afterwards.
    pub fn take_outgoing(&mut self) -> (r: Option<Vec<u8>>)
        ensures
            final(self).message is None,
            r is Some <==> old(self).message is Some,
            old(self).message matches Some(text) ==> {
                &&& r->Some_0@ == frame_bytes(encode_utf8(text@))
                &&& final(self).chat_window.message_views() == old(self).chat_window.message_views().push(
                    MessageView { autor: old(self).eu@, tipo: TipoView::Chat(text@) },
                )
            },
            old(self).message is None ==> final(self).chat_window == old(self).chat_window,
            final(self).chat_window.ip == old(self).chat_window.ip,
            final(self).chat_window.tick == old(self).chat_window.tick,
            final(self).eu == old(self).eu,
            final(self).read_buffer@ == old(self).read_buffer@,
    {
        let waiting = self.message.take();
        match waiting {
            Some(text) => {
                let frame = frame_text_message(text.as_str());
                let m = Message::new(self.eu.duplicate(), TipoMensagem::Chat(text));
                let ghost before = self.chat_window.messages@;
                self.chat_window.receive_message(m);
                assert(self.chat_window.message_views() =~= before.map_values(|m: Message| m@).push(
                    m@,
                ));
                Some(frame)
            },
            None => None,
        }
    }
}

} // verus!
