//! The hosting side's decisions, one event at a time: what the room queues,
//! who is dropped, and who receives what. The caller performs the I/O.
use std::collections::VecDeque;
use vstd::prelude::*;
use crate::chat_window::{ChatWindow, TerminalMessage};
use crate::framing::{decode_frame_text, frame_text, FrameError};
use crate::utilities::{Client, Message, MessageView, Pessoa, PessoaView, TipoMensagem, TipoView};

verus! {

/// Size of the buffer that reads from a participant land in.
pub const READ_BUFFER_LEN: usize = 1048576;

/// The sequence `s` after removing, one after the other, the element at each
/// index of `idxs` (each index counted in the sequence as it is by then), or
/// `None` when an index falls outside it.
pub open spec fn removed_in_order<T>(s: Seq<T>, idxs: Seq<usize>) -> Option<Seq<T>>
    decreases idxs.len(),
{
    if idxs.len() == 0 {
        Some(s)
    } else {
        match removed_in_order(s, idxs.drop_last()) {
            Some(t) => if idxs.last() < t.len() {
                Some(t.remove(idxs.last() as int))
            } else {
                None
            },
            None => None,
        }
    }
}

/// Indices, in increasing order, of the people in `people` whose id is not
/// `author`.
pub open spec fn recipients(people: Seq<PessoaView>, author: u32) -> Seq<usize>
    decreases people.len(),
{
    if people.len() == 0 {
        Seq::empty()
    } else {
        let r = recipients(people.drop_last(), author);
        if people.last().id != author {
            r.push((people.len() - 1) as usize)
        } else {
            r
        }
    }
}

/// Nobody receives their own message, everybody else receives it once, in
/// the order in which they joined.
pub proof fn lemma_recipients(people: Seq<PessoaView>, author: u32)
    requires
        people.len() <= usize::MAX,
    ensures
        forall|i: int|
            0 <= i < recipients(people, author).len() ==> {
                let k = #[trigger] recipients(people, author)[i];
                &&& k < people.len()
                &&& people[k as int].id != author
            },
        forall|i: int, j: int|
            0 <= i < j < recipients(people, author).len() ==> recipients(people, author)[i]
                < recipients(people, author)[j],
        forall|k: int|
            0 <= k < people.len() && people[k].id != author ==> recipients(people, author).contains(
                k as usize,
            ),
    decreases people.len(),
{
    if people.len() > 0 {
        let prev = people.drop_last();
        lemma_recipients(prev, author);
        let r = recipients(prev, author);
        let rr = recipients(people, author);
        let last = (people.len() - 1) as usize;
        if people.last().id != author {
            assert(rr == r.push(last));
        } else {
            assert(rr == r);
        }
        assert(forall|i: int| 0 <= i < r.len() ==> rr[i] == r[i]);
        assert forall|i: int| 0 <= i < rr.len() implies ({
            let k = #[trigger] rr[i];
            &&& k < people.len()
            &&& people[k as int].id != author
        }) by {
            if i < r.len() {
                let k = r[i];
                assert(k < prev.len());
                assert(prev[k as int] == people[k as int]);
            } else {
                assert(rr[i] == last);
            }
        }
        assert forall|i: int, j: int| 0 <= i < j < rr.len() implies rr[i] < rr[j] by {
            if j < r.len() {
                assert(rr[i] == r[i]);
                assert(rr[j] == r[j]);
            } else {
                assert(rr[j] == last);
                assert(r[i] < prev.len());
            }
        }
        assert forall|k: int| 0 <= k < people.len() && people[k].id != author implies rr.contains(
            k as usize,
        ) by {
            if k < people.len() - 1 {
                assert(prev[k] == people[k]);
                let i = choose|i: int| 0 <= i < r.len() && r[i] == k as usize;
                assert(rr[i] == k as usize);
            } else {
                assert(rr[rr.len() - 1] == k as usize);
            }
        }
    }
}

/// The pieces of `parts`, one after the other.
pub open spec fn concat_all(parts: Seq<Seq<MessageView>>) -> Seq<MessageView>
    decreases parts.len(),
{
    if parts.len() == 0 {
        Seq::empty()
    } else {
        concat_all(parts.drop_last()) + parts.last()
    }
}

/// The order of one round of the host. A round starts with an empty queue
/// (the previous round's hand-out emptied it) and runs its steps in order:
/// the terminal event, each new arrival in the order accepted, each read in
/// participant order. Each step appends at most one message to the queue
/// (`added[i]`, as the step's `ensures` says), and the round's hand-out puts
/// the whole queue after the window's messages. Then the window receives
/// exactly the messages the steps added, each once, in the order of the
/// steps.
pub proof fn lemma_round_order(
    queues: Seq<Seq<MessageView>>,
    added: Seq<Seq<MessageView>>,
    window_before: Seq<MessageView>,
    window_after: Seq<MessageView>,
)
    requires
        queues.len() == added.len() + 1,
        queues[0].len() == 0,
        forall|i: int|
            0 <= i < added.len() ==> (#[trigger] added[i]).len() <= 1 && queues[i + 1] == queues[i]
                + added[i],
        window_after == window_before + queues.last(),
    ensures
        window_after == window_before + concat_all(added),
        window_after.len() == window_before.len() + concat_all(added).len(),
{
    lemma_queue_is_concat(queues, added);
}

proof fn lemma_queue_is_concat(queues: Seq<Seq<MessageView>>, added: Seq<Seq<MessageView>>)
    requires
        queues.len() == added.len() + 1,
        queues[0].len() == 0,
        forall|i: int|
            0 <= i < added.len() ==> (#[trigger] added[i]).len() <= 1 && queues[i + 1] == queues[i]
                + added[i],
    ensures
        queues.last() == concat_all(added),
    decreases added.len(),
{
    if added.len() == 0 {
        assert(queues.last() =~= Seq::<MessageView>::empty());
    } else {
        let q = queues.drop_last();
        let a = added.drop_last();
        assert forall|i: int| 0 <= i < a.len() implies (#[trigger] a[i]).len() <= 1 && q[i + 1]
            == q[i] + a[i] by {
            assert(a[i] == added[i]);
            assert(q[i + 1] == queues[i + 1]);
        }
        lemma_queue_is_concat(q, a);
        assert(added[added.len() - 1].len() <= 1);
        assert(queues.last() == q.last() + added.last());
    }
}

/// A message to send and the participants (by index) that receive it.
pub struct Delivery {
    pub message: Message,
    pub recipients: Vec<usize>,
}

/// The hosting side's state.
pub struct ServerState<C> {
    /// Who hosts.
    pub eu: Pessoa,
    /// The participants, in the order in which they joined.
    pub conexoes: Vec<Client<C>>,
    /// Messages not yet handed out, oldest first.
    pub mensagens: VecDeque<Message>,
    /// Participants found gone during this round, by index.
    pub idx_remove: Vec<usize>,
    /// Where reads from participants land.
    pub read_buffer: Vec<u8>,
    /// The host's own window.
    pub chat_window: ChatWindow,
}

impl<C> ServerState<C> {
    pub open spec fn people(&self) -> Seq<PessoaView> {
        self.conexoes@.map_values(|c: Client<C>| c.pessoa@)
    }

    pub open spec fn queued(&self) -> Seq<MessageView> {
        self.mensagens@.map_values(|m: Message| m@)
    }

    /// A room hosted by `eu`, whose address is `ip`, with nobody in it.
    pub fn new(eu: Pessoa, ip: Option<String>) -> (r: ServerState<C>)
        ensures
            r.eu@ == eu@,
            r.conexoes@.len() == 0,
            r.mensagens@.len() == 0,
            r.idx_remove@.len() == 0,
            r.read_buffer@.len() == READ_BUFFER_LEN,
            forall|i: int| 0 <= i < READ_BUFFER_LEN ==> r.read_buffer@[i] == 0u8,
            r.chat_window.ip == ip,
            r.chat_window.messages@.len() == 0,
            r.chat_window.tick == 0,
    {
        ServerState {
            eu,
            conexoes: Vec::new(),
            mensagens: VecDeque::new(),
            idx_remove: Vec::new(),
            read_buffer: vec![0u8; READ_BUFFER_LEN],
            chat_window: ChatWindow::new(ip),
        }
    }

    /// Handles what the terminal asked for: `false` to quit; a typed message
    /// is queued as the host's.
    pub fn on_terminal(&mut self, event: TerminalMessage) -> (keep_going: bool)
        ensures
            keep_going == !(event is Quit),
            event matches TerminalMessage::SendMessage(text) ==> final(self).queued()
                == old(self).queued().push(
                MessageView { autor: old(self).eu@, tipo: TipoView::Chat(text@) },
            ),
            !(event is SendMessage) ==> final(self).queued() == old(self).queued(),
            final(self).eu@ == old(self).eu@,
            final(self).conexoes@ == old(self).conexoes@,
            final(self).idx_remove@ == old(self).idx_remove@,
            final(self).read_buffer@ == old(self).read_buffer@,
            final(self).chat_window == old(self).chat_window,
    {
        match event {
            TerminalMessage::Quit => false,
            TerminalMessage::SendMessage(text) => {
                let m = Message::new(self.eu.duplicate(), TipoMensagem::Chat(text));
                let ghost before = self.mensagens@;
                self.mensagens.push_back(m);
                assert(self.queued() =~= before.map_values(|m: Message| m@).push(m@));
                true
            },
            _ => true,
        }
    }

    /// A participant joined: their arrival is queued and they are added last.
    pub fn on_new_client(&mut self, client: Client<C>)
        ensures
            final(self).queued() == old(self).queued().push(
                MessageView { autor: client.pessoa@, tipo: TipoView::Entrada },
            ),
            final(self).conexoes@ == old(self).conexoes@.push(client),
            final(self).eu@ == old(self).eu@,
            final(self).idx_remove@ == old(self).idx_remove@,
            final(self).read_buffer@ == old(self).read_buffer@,
            final(self).chat_window == old(self).chat_window,
    {
        let m = Message::new(client.pessoa.duplicate(), TipoMensagem::Entrada);
        let ghost before = self.mensagens@;
        self.mensagens.push_back(m);
        assert(self.queued() =~= before.map_values(|m: Message| m@).push(m@));
        self.conexoes.push(client);
    }

    /// Handles a read from participant `idx` into the read buffer: `None`
    /// when nothing could be read, else the number of bytes read. At 0 bytes
    /// the participant left: their departure is queued and they are marked
    /// for removal. Otherwise the buffer holds a frame: its text is queued as
    /// the participant's message and the buffer is emptied. A buffer that
    /// holds no frame is refused, with nothing changed.
    pub fn on_read(&mut self, idx: usize, amount: Option<usize>) -> (r: Result<(), FrameError>)
        requires
            idx < old(self).conexoes.len(),
        ensures
            final(self).eu@ == old(self).eu@,
            final(self).conexoes@ == old(self).conexoes@,
            final(self).chat_window == old(self).chat_window,
            match amount {
                None => r is Ok && final(self).queued() == old(self).queued() && final(self).idx_remove@ == old(self).idx_remove@ && final(self).read_buffer@ == old(self).read_buffer@,
                Some(n) => if n == 0 {
                    &&& r is Ok
                    &&& final(self).queued() == old(self).queued().push(
                        MessageView {
                            autor: old(self).conexoes@[idx as int].pessoa@,
                            tipo: TipoView::Saida,
                        },
                    )
                    &&& final(self).idx_remove@ == old(self).idx_remove@.push(idx)
                    &&& final(self).read_buffer@ == old(self).read_buffer@
                } else {
                    match frame_text(old(self).read_buffer@) {
                        Ok(t) => {
                            &&& r is Ok
                            &&& final(self).queued() == old(self).queued().push(
                                MessageView {
                                    autor: old(self).conexoes@[idx as int].pessoa@,
                                    tipo: TipoView::Chat(t),
                                },
                            )
                            &&& final(self).idx_remove@ == old(self).idx_remove@
                            &&& final(self).read_buffer@.len() == 0
                        },
                        Err(e) => {
                            &&& r == Err::<(), FrameError>(e)
                            &&& final(self).queued() == old(self).queued()
                            &&& final(self).idx_remove@ == old(self).idx_remove@
                            &&& final(self).read_buffer@ == old(self).read_buffer@
                        },
                    }
                },
            },
    {
        match amount {
            None => Ok(()),
            Some(n) => {
                if n == 0 {
                    let m = Message::new(self.conexoes[idx].pessoa.duplicate(), TipoMensagem::Saida);
                    let ghost before = self.mensagens@;
                    self.mensagens.push_back(m);
                    assert(self.queued() =~= before.map_values(|m: Message| m@).push(m@));
                    self.idx_remove.push(idx);
                    Ok(())
                } else {
                    match decode_frame_text(self.read_buffer.as_slice()) {
                        Ok(texto) => {
                            let m = Message::new(
                                self.conexoes[idx].pessoa.duplicate(),
                                TipoMensagem::Chat(texto),
                            );
                            let ghost before = self.mensagens@;
                            self.mensagens.push_back(m);
                            assert(self.queued() =~= before.map_values(|m: Message| m@).push(m@));
                            self.read_buffer.clear();
                            Ok(())
                        },
                        Err(e) => Err(e),
                    }
                }
            },
        }
    }

    /// Removes the participants marked during this round, one after the
    /// other by index as marked, and forgets the marks; refused, with nothing
    /// changed, when a mark falls outside the list as it is by then.
    pub fn remove_disconnected(&mut self) -> (r: Result<(), ()>)
        ensures
            final(self).eu@ == old(self).eu@,
            final(self).mensagens@ == old(self).mensagens@,
            final(self).read_buffer@ == old(self).read_buffer@,
            final(self).chat_window == old(self).chat_window,
            match removed_in_order(old(self).conexoes@, old(self).idx_remove@) {
                Some(rest) => r is Ok && final(self).conexoes@ == rest && final(self).idx_remove@.len() == 0,
                None => r is Err && final(self).conexoes@ == old(self).conexoes@ && final(self).idx_remove@ == old(self).idx_remove@,
            },
    {
        let n = self.idx_remove.len();
        let mut len = self.conexoes.len();
        let mut k: usize = 0;
        assert(self.idx_remove@.take(0) =~= Seq::<usize>::empty());
        while k < n
            invariant
                n == self.idx_remove.len(),
                k <= n,
                removed_in_order(self.conexoes@, self.idx_remove@.take(k as int)) matches Some(t)
                    && t.len() == len,
            decreases n - k,
        {
            let i = self.idx_remove[k];
            proof {
                assert(self.idx_remove@.take(k + 1).drop_last() =~= self.idx_remove@.take(
                    k as int,
                ));
                assert(self.idx_remove@.take(k + 1).last() == i);
            }
            if i >= len {
                proof {
                    lemma_removal_fails_later(
                        self.conexoes@,
                        self.idx_remove@,
                        (k + 1) as nat,
                    );
                    assert(self.idx_remove@.take(n as int) =~= self.idx_remove@);
                }
                return Err(());
            }
            len = len - 1;
            k = k + 1;
        }
        assert(self.idx_remove@.take(n as int) =~= self.idx_remove@);
        let ghost start = self.conexoes@;
        let ghost idxs = self.idx_remove@;
        let mut k: usize = 0;
        while k < n
            invariant
                n == self.idx_remove.len(),
                self.idx_remove@ == idxs,
                idxs == old(self).idx_remove@,
                start == old(self).conexoes@,
                self.eu == old(self).eu,
                self.mensagens == old(self).mensagens,
                self.read_buffer == old(self).read_buffer,
                self.chat_window == old(self).chat_window,
                k <= n,
                removed_in_order(start, self.idx_remove@) is Some,
                removed_in_order(start, self.idx_remove@.take(k as int)) == Some(self.conexoes@),
            decreases n - k,
        {
            let i = self.idx_remove[k];
            proof {
                assert(self.idx_remove@.take(k + 1).drop_last() =~= self.idx_remove@.take(
                    k as int,
                ));
                assert(self.idx_remove@.take(k + 1).last() == i);
                lemma_removal_prefix_some(start, self.idx_remove@, (k + 1) as nat);
            }
            self.conexoes.remove(i);
            k = k + 1;
        }
        self.idx_remove.clear();
        Ok(())
    }

    /// Hands out every queued message, oldest first: each goes to the host's
    /// window and to every participant but its author. The queue is left
    /// empty.
    pub fn take_deliveries(&mut self) -> (r: Vec<Delivery>)
        ensures
            r.len() == old(self).mensagens@.len(),
            forall|i: int|
                0 <= i < r.len() ==> {
                    &&& (#[trigger] r@[i]).message@ == old(self).mensagens@[i]@
                    &&& r@[i].recipients@ == recipients(
                        old(self).people(),
                        old(self).mensagens@[i].autor.id,
                    )
                },
            final(self).mensagens@.len() == 0,
            final(self).chat_window.message_views() == old(self).chat_window.message_views()
                + old(self).queued(),
            final(self).chat_window.ip == old(self).chat_window.ip,
            final(self).chat_window.tick == old(self).chat_window.tick,
            final(self).eu@ == old(self).eu@,
            final(self).conexoes@ == old(self).conexoes@,
            final(self).idx_remove@ == old(self).idx_remove@,
            final(self).read_buffer@ == old(self).read_buffer@,
    {
        let ghost n = self.mensagens@.len();
        let ghost msgs = self.mensagens@;
        let mut r: Vec<Delivery> = Vec::new();
        let ghost window0 = self.chat_window.message_views();
        let ghost queued = self.queued();
        assert(window0 + queued.take(0) =~= window0);
        assert(msgs.skip(0) =~= msgs);
        while self.mensagens.len() > 0
            invariant
                n == msgs.len(),
                r.len() <= n,
                self.mensagens@ == msgs.skip(r.len() as int),
                msgs == old(self).mensagens@,
                queued == old(self).queued(),
                window0 == old(self).chat_window.message_views(),
                forall|q: int|
                    0 <= q < r.len() ==> {
                        &&& (#[trigger] r@[q]).message@ == msgs[q]@
                        &&& r@[q].recipients@ == recipients(self.people(), msgs[q].autor.id)
                    },
                self.chat_window.message_views() == window0 + queued.take(r.len() as int),
                self.chat_window.ip == old(self).chat_window.ip,
                self.chat_window.tick == old(self).chat_window.tick,
                self.eu == old(self).eu,
                self.conexoes == old(self).conexoes,
                self.idx_remove == old(self).idx_remove,
                self.read_buffer == old(self).read_buffer,
            decreases self.mensagens@.len(),
        {
            broadcast use vstd::std_specs::vecdeque::axiom_spec_len;
            let ghost k = r.len() as int;
            let msg = self.mensagens.pop_front().unwrap();
            proof {
                assert(msg == msgs[k]);
                assert(self.mensagens@ =~= msgs.skip(k + 1));
            }
            let shown = msg.duplicate();
            let ghost before = self.chat_window.messages@;
            self.chat_window.receive_message(shown);
            proof {
                assert(self.chat_window.message_views() =~= before.map_values(|m: Message| m@).push(
                    shown@,
                ));
                assert(queued[k] == msgs[k]@);
                assert(queued.take(k + 1) =~= queued.take(k).push(queued[k]));
            }
            let who = self.recipients_of(msg.autor.id);
            r.push(Delivery { message: msg, recipients: who });
        }
        proof {
            broadcast use vstd::std_specs::vecdeque::axiom_spec_len;
            assert(r.len() == n);
            assert(queued.take(n as int) =~= queued);
        }
        r
    }

    /// Indices of the participants whose id is not `author`.
    fn recipients_of(&self, author: u32) -> (r: Vec<usize>)
        ensures
            r@ == recipients(self.people(), author),
    {
        let mut r: Vec<usize> = Vec::new();
        let mut k: usize = 0;
        let n = self.conexoes.len();
        assert(self.people().take(0) =~= Seq::<PessoaView>::empty());
        while k < n
            invariant
                n == self.conexoes.len(),
                k <= n,
                r@ == recipients(self.people().take(k as int), author),
            decreases n - k,
        {
            proof {
                let p = self.people().take(k + 1);
                assert(p.drop_last() =~= self.people().take(k as int));
                assert(p.last() == self.conexoes@[k as int].pessoa@);
            }
            if self.conexoes[k].pessoa.id != author {
                r.push(k);
            }
            k = k + 1;
        }
        assert(self.people().take(n as int) =~= self.people());
        r
    }
}

/// Each mark removes exactly the element at that index of the list as it
/// stands by then: everything before it stays where it was, everything after
/// it moves up by one, nothing else changes; a mark past the end refuses the
/// whole removal. With no marks the list stays as it is.
pub proof fn lemma_removal_step<T>(s: Seq<T>, idxs: Seq<usize>, i: usize)
    requires
        removed_in_order(s, idxs) is Some,
    ensures
        removed_in_order(s, Seq::<usize>::empty()) == Some(s),
        ({
            let t = removed_in_order(s, idxs)->Some_0;
            if i < t.len() {
                &&& removed_in_order(s, idxs.push(i)) is Some
                &&& removed_in_order(s, idxs.push(i))->Some_0.len() == t.len() - 1
                &&& forall|j: int|
                    0 <= j < i ==> #[trigger] removed_in_order(s, idxs.push(i))->Some_0[j] == t[j]
                &&& forall|j: int|
                    i <= j < t.len() - 1 ==> #[trigger] removed_in_order(s, idxs.push(i))->Some_0[j]
                        == t[j + 1]
            } else {
                removed_in_order(s, idxs.push(i)) is None
            }
        }),
{
    assert(idxs.push(i).drop_last() =~= idxs);
    assert(idxs.push(i).last() == i);
}

proof fn lemma_removal_fails_later<T>(s: Seq<T>, idxs: Seq<usize>, k: nat)
    requires
        k <= idxs.len(),
        removed_in_order(s, idxs.take(k as int)) is None,
    ensures
        removed_in_order(s, idxs) is None,
    decreases idxs.len() - k,
{
    if k == idxs.len() {
        assert(idxs.take(k as int) =~= idxs);
    } else {
        assert(idxs.take(k + 1 as int).drop_last() =~= idxs.take(k as int));
        lemma_removal_fails_later(s, idxs, (k + 1) as nat);
    }
}

proof fn lemma_removal_prefix_some<T>(s: Seq<T>, idxs: Seq<usize>, k: nat)
    requires
        k <= idxs.len(),
        removed_in_order(s, idxs) is Some,
    ensures
        removed_in_order(s, idxs.take(k as int)) is Some,
{
    if removed_in_order(s, idxs.take(k as int)) is None {
        lemma_removal_fails_later(s, idxs, k);
    }
}

} // verus!
