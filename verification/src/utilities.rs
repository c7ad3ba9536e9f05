//! People, messages and how a message reads on screen.
use vstd::prelude::*;
use crate::text::{
    is_unicode_whitespace, lemma_trim_end_characterized, strip_line_breaks, trim_end, trim_end_spec,
    without_line_breaks,
};

verus! {

/// A person's display colour: the IEEE-754 bit patterns of its hue (degrees),
/// saturation and lightness (percent). The library only carries it along.
#[derive(Clone, Copy, Debug, PartialEq, Eq, Structural)]
pub struct Cor {
    pub hue_bits: u64,
    pub saturation_bits: u64,
    pub lightness_bits: u64,
}

/// Hands out person ids, one after the other, wrapping around after
/// `u32::MAX` as an atomic `fetch_add(1)` on a `u32` does.
pub struct IdAllocator {
    next: u32,
}

/// The id handed out by the `k`-th allocation (counting from 0) of an
/// allocator whose next id is `start`.
pub open spec fn nth_id(start: u32, k: nat) -> u32 {
    ((start + k) % 0x1_0000_0000) as u32
}

impl IdAllocator {
    /// The id that the next allocation returns.
    pub closed spec fn next_id(&self) -> u32 {
        self.next
    }

    /// An allocator whose first id is 0.
    pub fn new() -> (r: IdAllocator)
        ensures
            r.next_id() == 0,
    {
        IdAllocator { next: 0 }
    }

    /// Returns the next id and moves on to the one after it.
    pub fn allocate(&mut self) -> (id: u32)
        ensures
            id == old(self).next_id(),
            final(self).next_id() == nth_id(old(self).next_id(), 1),
    {
        let id = self.next;
        if self.next == u32::MAX {
            self.next = 0;
        } else {
            self.next = self.next + 1;
        }
        id
    }
}

/// Ids stay distinct: the first `2^32` allocations from any starting point
/// hand out pairwise different ids, and after `k` allocations the next id is
/// the `k`-th one.
pub proof fn lemma_ids_distinct(start: u32, i: nat, j: nat)
    requires
        i < j < 0x1_0000_0000,
    ensures
        nth_id(start, i) != nth_id(start, j),
        nth_id(nth_id(start, i), 1) == nth_id(start, i + 1),
{
}

/// A participant of the chat.
#[derive(Clone, Debug)]
pub struct Pessoa {
    pub nome: String,
    pub id: u32,
    pub cor: Cor,
}

pub struct PessoaView {
    pub nome: Seq<char>,
    pub id: u32,
    pub cor: Cor,
}

impl View for Pessoa {
    type V = PessoaView;

    open spec fn view(&self) -> PessoaView {
        PessoaView { nome: self.nome@, id: self.id, cor: self.cor }
    }
}

impl Pessoa {
    /// A person named `nome` with the next id of `ids` and colour `cor`.
    pub fn new(nome: String, ids: &mut IdAllocator, cor: Cor) -> (r: Pessoa)
        ensures
            r@ == (PessoaView { nome: nome@, id: old(ids).next_id(), cor }),
            final(ids).next_id() == nth_id(old(ids).next_id(), 1),
    {
        let id = ids.allocate();
        Pessoa { nome, id, cor }
    }

    /// A copy of this person.
    pub fn duplicate(&self) -> (r: Pessoa)
        ensures
            r@ == self@,
    {
        Pessoa { nome: self.nome.clone(), id: self.id, cor: self.cor }
    }
}

/// What a message says: someone came in, someone left, or a chat text.
#[derive(Clone, Debug)]
pub enum TipoMensagem {
    Entrada,
    Saida,
    Chat(String),
}

pub enum TipoView {
    Entrada,
    Saida,
    Chat(Seq<char>),
}

impl View for TipoMensagem {
    type V = TipoView;

    open spec fn view(&self) -> TipoView {
        match self {
            TipoMensagem::Entrada => TipoView::Entrada,
            TipoMensagem::Saida => TipoView::Saida,
            TipoMensagem::Chat(t) => TipoView::Chat(t@),
        }
    }
}

impl TipoMensagem {
    pub fn duplicate(&self) -> (r: TipoMensagem)
        ensures
            r@ == self@,
    {
        match self {
            TipoMensagem::Entrada => TipoMensagem::Entrada,
            TipoMensagem::Saida => TipoMensagem::Saida,
            TipoMensagem::Chat(t) => TipoMensagem::Chat(t.clone()),
        }
    }
}

/// A message of the chat and its author.
#[derive(Clone, Debug)]
pub struct Message {
    pub autor: Pessoa,
    pub tipo: TipoMensagem,
}

pub struct MessageView {
    pub autor: PessoaView,
    pub tipo: TipoView,
}

impl View for Message {
    type V = MessageView;

    open spec fn view(&self) -> MessageView {
        MessageView { autor: self.autor@, tipo: self.tipo@ }
    }
}

/// How a piece of a formatted line is coloured.
#[derive(Clone, Copy, Debug, PartialEq, Eq, Structural)]
pub enum SpanStyle {
    /// In the author's own colour.
    AuthorColor,
    /// Light blue foreground.
    LightBlue,
    /// Red foreground.
    Red,
    /// No styling.
    Plain,
}

/// A piece of text with its style.
#[derive(Clone, Debug)]
pub struct StyledSpan {
    pub style: SpanStyle,
    pub content: String,
}

impl View for StyledSpan {
    type V = (SpanStyle, Seq<char>);

    open spec fn view(&self) -> (SpanStyle, Seq<char>) {
        (self.style, self.content@)
    }
}

/// One line of the chat as it is drawn: its spans, left to right.
#[derive(Clone, Debug)]
pub struct FormattedLine {
    pub spans: Vec<StyledSpan>,
}

impl View for FormattedLine {
    type V = Seq<(SpanStyle, Seq<char>)>;

    open spec fn view(&self) -> Seq<(SpanStyle, Seq<char>)> {
        self.spans@.map_values(|s: StyledSpan| s@)
    }
}

/// The spans of the line that shows message `m`.
pub open spec fn formatted_spec(m: MessageView) -> Seq<(SpanStyle, Seq<char>)> {
    match m.tipo {
        TipoView::Entrada => seq![
            (SpanStyle::AuthorColor, m.autor.nome),
            (SpanStyle::LightBlue, " entrou no chat!..."@),
        ],
        TipoView::Saida => seq![
            (SpanStyle::AuthorColor, m.autor.nome),
            (SpanStyle::Red, " saiu no chat!..."@),
        ],
        TipoView::Chat(t) => seq![
            (SpanStyle::AuthorColor, m.autor.nome),
            (SpanStyle::Plain, ": "@),
            (SpanStyle::Plain, trim_end_spec(t)),
        ],
    }
}

/// A chat line shows the author's name in the author's colour, then `": "`,
/// then the whole chat text without its trailing whitespace: a prefix of the
/// text after which the text holds whitespace only, and which does not
/// itself end in whitespace.
pub proof fn lemma_chat_line(m: MessageView)
    requires
        m.tipo is Chat,
    ensures
        ({
            let t = m.tipo->Chat_0;
            let line = formatted_spec(m);
            let shown = line[2].1;
            &&& line.len() == 3
            &&& line[0] == (SpanStyle::AuthorColor, m.autor.nome)
            &&& line[1] == (SpanStyle::Plain, ": "@)
            &&& line[2].0 == SpanStyle::Plain
            &&& shown.len() <= t.len()
            &&& shown == t.take(shown.len() as int)
            &&& forall|j: int| shown.len() <= j < t.len() ==> is_unicode_whitespace(#[trigger] t[j])
            &&& shown.len() > 0 ==> !is_unicode_whitespace(shown.last())
            &&& spans_text(line) == m.autor.nome + ": "@ + shown
        }),
{
    let t = m.tipo->Chat_0;
    lemma_trim_end_characterized(t);
    let line = formatted_spec(m);
    let l0 = line.drop_last();
    let l00 = l0.drop_last();
    assert(l00.drop_last() =~= Seq::<(SpanStyle, Seq<char>)>::empty());
    assert(l00.last() == line[0]);
    assert(l0.last() == line[1]);
    assert(spans_text(l00) == spans_text(l00.drop_last()) + m.autor.nome);
    assert(spans_text(l00.drop_last()) == Seq::<char>::empty());
    assert(spans_text(l00) =~= m.autor.nome);
    assert(spans_text(l0) == spans_text(l00) + ": "@);
    assert(spans_text(line) == spans_text(l0) + line[2].1);
}

/// The text of a line: its spans' contents one after the other.
pub open spec fn spans_text(spans: Seq<(SpanStyle, Seq<char>)>) -> Seq<char>
    decreases spans.len(),
{
    if spans.len() == 0 {
        Seq::empty()
    } else {
        spans_text(spans.drop_last()) + spans.last().1
    }
}

/// How message `m` reads when it is printed as text.
pub open spec fn display_spec(m: MessageView) -> Seq<char> {
    match m.tipo {
        TipoView::Entrada => without_line_breaks(m.autor.nome) + " "@ + "entrou no chat!..."@,
        TipoView::Saida => without_line_breaks(m.autor.nome) + " "@ + "saiu do chat..."@,
        TipoView::Chat(t) => without_line_breaks(m.autor.nome) + ": "@ + trim_end_spec(t),
    }
}

fn span(style: SpanStyle, content: String) -> (r: StyledSpan)
    ensures
        r@ == (style, content@),
{
    StyledSpan { style, content }
}

impl FormattedLine {
    /// The text of this line.
    pub fn text(&self) -> (r: String)
        ensures
            r@ == spans_text(self@),
    {
        let mut r = String::new();
        let mut k: usize = 0;
        let n = self.spans.len();
        while k < n
            invariant
                n == self.spans.len(),
                k <= n,
                r@ == spans_text(self@.take(k as int)),
            decreases n - k,
        {
            let ghost pre = self@.take(k as int);
            r.append(self.spans[k].content.as_str());
            k = k + 1;
            assert(self@.take(k as int).drop_last() =~= pre);
        }
        assert(self@.take(n as int) =~= self@);
        r
    }
}

impl Message {
    /// The message `tipo` by `autor`.
    pub fn new(autor: Pessoa, tipo: TipoMensagem) -> (r: Message)
        ensures
            r@ == (MessageView { autor: autor@, tipo: tipo@ }),
    {
        Message { autor, tipo }
    }

    /// A copy of this message.
    pub fn duplicate(&self) -> (r: Message)
        ensures
            r@ == self@,
    {
        Message { autor: self.autor.duplicate(), tipo: self.tipo.duplicate() }
    }

    /// The line that shows this message: the author's name in the author's
    /// colour, then what happened.
    pub fn formatted(&self) -> (r: FormattedLine)
        ensures
            r@ == formatted_spec(self@),
    {
        let nome = span(SpanStyle::AuthorColor, self.autor.nome.clone());
        let mut spans: Vec<StyledSpan> = Vec::new();
        spans.push(nome);
        match &self.tipo {
            TipoMensagem::Entrada => {
                spans.push(span(SpanStyle::LightBlue, String::from_str(" entrou no chat!...")));
            },
            TipoMensagem::Saida => {
                spans.push(span(SpanStyle::Red, String::from_str(" saiu no chat!...")));
            },
            TipoMensagem::Chat(texto) => {
                spans.push(span(SpanStyle::Plain, String::from_str(": ")));
                spans.push(span(SpanStyle::Plain, trim_end(texto.as_str())));
            },
        }
        let r = FormattedLine { spans };
        assert(r@ =~= formatted_spec(self@));
        r
    }

    /// The message as printed text.
    pub fn display_text(&self) -> (r: String)
        ensures
            r@ == display_spec(self@),
    {
        let mut r = strip_line_breaks(self.autor.nome.as_str());
        match &self.tipo {
            TipoMensagem::Entrada => {
                r.append(" ");
                r.append("entrou no chat!...");
            },
            TipoMensagem::Saida => {
                r.append(" ");
                r.append("saiu do chat...");
            },
            TipoMensagem::Chat(texto) => {
                r.append(": ");
                let t = trim_end(texto.as_str());
                r.append(t.as_str());
            },
        }
        r
    }
}

/// A named connection.
pub struct Conexao<C> {
    pub nome: String,
    pub conexao: C,
}

impl<C> Conexao<C> {
    pub fn new(nome: String, conexao: C) -> (r: Conexao<C>)
        ensures
            r.nome@ == nome@,
            r.conexao == conexao,
    {
        Conexao { nome, conexao }
    }
}

/// A connected participant: its connection and who it is.
pub struct Client<C> {
    pub conexao: C,
    pub pessoa: Pessoa,
}

impl<C> Client<C> {
    /// A participant named `nome` on `conexao`, with the next id of `ids`.
    pub fn new(nome: String, conexao: C, ids: &mut IdAllocator, cor: Cor) -> (r: Client<C>)
        ensures
            r.pessoa@ == (PessoaView { nome: nome@, id: old(ids).next_id(), cor }),
            r.conexao == conexao,
            final(ids).next_id() == nth_id(old(ids).next_id(), 1),
    {
        let pessoa = Pessoa::new(nome, ids, cor);
        Client { pessoa, conexao }
    }

    /// The participant as printed text: its name.
    pub fn display_text(&self) -> (r: String)
        ensures
            r@ == self.pessoa.nome@,
    {
        self.pessoa.nome.clone()
    }
}

} // verus!
