//! The chat window's state and the decisions it takes when it is drawn:
//! where the message list goes, which messages fit, and when to quit.
use vstd::prelude::*;
use crate::text::{
    ascii_words, ceil_div, chars_of, div_ceil, lemma_ceil_div_le, lemma_sum_usizes_prefix,
    sum_usizes, utf8_len, utf8_len_within, word_byte_lengths,
};
use crate::utilities::{formatted_spec, spans_text, FormattedLine, Message, MessageView};

verus! {

/// A rectangle of terminal cells.
#[derive(Clone, Copy, Debug, PartialEq, Eq, Structural)]
pub struct Area {
    pub x: u16,
    pub y: u16,
    pub width: u16,
    pub height: u16,
}

/// The two areas, top and bottom, that ratatui's vertical layout with
/// constraints `[Min(min_rows), Length(fixed_rows)]` carves out of `area`.
pub uninterp spec fn vertical_min_length_layout(area: Area, min_rows: u16, fixed_rows: u16) -> (
    Area,
    Area,
);

/// Heights of the two areas that `[Min(min_rows), Length(fixed_rows)]`
/// gives in `height` rows: while there is room for both, the bottom area gets
/// exactly its rows and the top one the rest; with less room the top area
/// keeps its minimum and the bottom one gets what is left; below the minimum
/// the top area takes everything.
pub open spec fn min_length_heights(height: u16, min_rows: u16, fixed_rows: u16) -> (u16, u16) {
    if height >= min_rows + fixed_rows {
        ((height - fixed_rows) as u16, fixed_rows)
    } else if height >= min_rows {
        (min_rows, (height - min_rows) as u16)
    } else {
        (height, 0u16)
    }
}

/// `top` and `bottom` split `area` as `[Min(min_rows), Length(fixed_rows)]`
/// does: both span the area's columns, `top` starts at the area's first row
/// and `bottom` right below it, with the heights of [`min_length_heights`].
pub open spec fn stacked_areas(area: Area, min_rows: u16, fixed_rows: u16, top: Area, bottom: Area) -> bool {
    let (h0, h1) = min_length_heights(area.height, min_rows, fixed_rows);
    &&& top.x == area.x && top.width == area.width
    &&& bottom.x == area.x && bottom.width == area.width
    &&& top.y == area.y && top.height == h0
    &&& bottom.y == area.y + h0 && bottom.height == h1
}

/// Rows that the message area gets at least.
pub const MESSAGE_MIN_ROWS: u16 = 3;

/// Rows of the input box.
pub const SEND_ROWS: u16 = 3;

/// The chat window's split of `area`: the message list on top (at least
/// [`MESSAGE_MIN_ROWS`] rows), the input box below ([`SEND_ROWS`] rows).
pub open spec fn chat_layout(area: Area) -> (Area, Area) {
    vertical_min_length_layout(area, MESSAGE_MIN_ROWS, SEND_ROWS)
}

/// `Layout::vertical([Constraint::Min(min_rows), Constraint::Length(fixed_rows)]).areas(area)`
/// of ratatui. Claimed: the result is a fixed function of the three
/// arguments, named [`vertical_min_length_layout`]; both rectangles keep the
/// column and width of `area` (a vertical layout with no margin); and, where
/// the area's last row fits in a `u16`, the rows are those of
/// [`stacked_areas`]. The latter is the unique optimum of the solver's
/// weighted constraints under the default `Flex::Start`: a required empty
/// first and middle spacer, `size >= min_rows` (strength 1e8) over
/// `size == fixed_rows` (1e7) over the top area filling the whole area (1e3)
/// over the last spacer growing (1e2). Where the last row does not fit,
/// ratatui clamps the area's end and the rows are not stated.
#[verifier::external_body]
fn split_vertical(area: Area, min_rows: u16, fixed_rows: u16) -> (r: (Area, Area))
    ensures
        r == vertical_min_length_layout(area, min_rows, fixed_rows),
        r.0.x == area.x && r.0.width == area.width,
        r.1.x == area.x && r.1.width == area.width,
        area.y + area.height <= u16::MAX ==> stacked_areas(area, min_rows, fixed_rows, r.0, r.1),
{
    let rect = ratatui::layout::Rect { x: area.x, y: area.y, width: area.width, height: area.height };
    let [m, s] = ratatui::layout::Layout::vertical(
        [ratatui::layout::Constraint::Min(min_rows), ratatui::layout::Constraint::Length(fixed_rows)],
    ).areas(rect);
    (
        Area { x: m.x, y: m.y, width: m.width, height: m.height },
        Area { x: s.x, y: s.y, width: s.width, height: s.height },
    )
}

/// What the terminal asked for during a frame.
pub enum TerminalMessage {
    /// Nothing: the frame went by.
    Tick,
    /// The user wants to leave.
    Quit,
    /// The user typed a message to send.
    SendMessage(String),
    /// The user typed a command.
    Command(String),
}

/// A key event read after a frame was drawn.
#[derive(Clone, Copy, Debug, PartialEq, Eq, Structural)]
pub struct KeyPress {
    /// The key went down (not up or repeat).
    pub is_press: bool,
    /// The key is Escape.
    pub is_esc: bool,
}

/// Rows that the words fill up to the last word longer than `limit` bytes,
/// read left to right: the words before each such long word are wrapped
/// together (each counting one byte more for the space after it), then the
/// long word on its own; what follows the last long word is pending.
/// The pair is (rows so far, pending bytes).
pub open spec fn rows_fold(ws: Seq<Seq<char>>, cols: nat, limit: nat) -> (nat, nat)
    decreases ws.len(),
{
    if ws.len() == 0 {
        (0, 0)
    } else {
        let (rows, pending) = rows_fold(ws.drop_last(), cols, limit);
        let b = utf8_len(ws.last());
        if b > limit {
            (rows + ceil_div(pending, cols) + ceil_div(b, cols), 0)
        } else {
            (rows, pending + b + 1)
        }
    }
}

/// Rows that a line of `text` takes in a message area `cols` cells wide
/// (after the border), where a word longer than `limit` bytes is wrapped on
/// its own: without such a word, the byte length divided by `cols`, rounded
/// up; with one, as [`rows_fold`] counts.
pub open spec fn line_rows(text: Seq<char>, cols: nat, limit: nat) -> nat {
    let ws = ascii_words(text);
    if exists|k: int| 0 <= k < ws.len() && utf8_len(#[trigger] ws[k]) > limit {
        rows_fold(ws, cols, limit).0
    } else {
        ceil_div(utf8_len(text), cols)
    }
}

/// A line without a word longer than `limit` bytes takes as many rows as
/// its bytes fill at `cols` bytes a row, the last row possibly partial: the
/// rows hold all its bytes, and one row less would not. The limit plays no
/// part in it.
pub proof fn lemma_rows_without_long_words(text: Seq<char>, cols: nat, limit: nat)
    requires
        cols >= 1,
        forall|k: int|
            0 <= k < ascii_words(text).len() ==> utf8_len(#[trigger] ascii_words(text)[k]) <= limit,
    ensures
        line_rows(text, cols, limit) * cols >= utf8_len(text),
        line_rows(text, cols, limit) == 0 || (line_rows(text, cols, limit) - 1) * cols < utf8_len(
            text,
        ),
{
    let b = utf8_len(text);
    assert(line_rows(text, cols, limit) == ceil_div(b, cols));
    assert((b / cols) * cols + b % cols == b && b % cols < cols) by (nonlinear_arith)
        requires
            cols >= 1,
    ;
    if b % cols == 0 {
        assert(((b / cols) - 1) * cols == (b / cols) * cols - cols) by (nonlinear_arith);
    } else {
        assert((b / cols + 1) * cols == (b / cols) * cols + cols) by (nonlinear_arith);
    }
}

/// A long word takes at least the rows its own bytes fill: with a word of
/// more than `limit` bytes, the line's rows hold at least that word's bytes
/// at `cols` bytes a row.
pub proof fn lemma_long_word_rows(text: Seq<char>, cols: nat, limit: nat, k: int)
    requires
        cols >= 1,
        0 <= k < ascii_words(text).len(),
        utf8_len(ascii_words(text)[k]) > limit,
    ensures
        line_rows(text, cols, limit) * cols >= utf8_len(ascii_words(text)[k]),
{
    let ws = ascii_words(text);
    lemma_fold_covers_long_word(ws, cols, limit, k);
    let b = utf8_len(ws[k]);
    assert((b / cols) * cols + b % cols == b && b % cols < cols) by (nonlinear_arith)
        requires
            cols >= 1,
    ;
    if b % cols != 0 {
        assert((b / cols + 1) * cols == (b / cols) * cols + cols) by (nonlinear_arith);
    }
    let r = rows_fold(ws, cols, limit).0;
    assert(r * cols >= ceil_div(b, cols) * cols) by (nonlinear_arith)
        requires
            r >= ceil_div(b, cols),
    ;
}

proof fn lemma_fold_covers_long_word(ws: Seq<Seq<char>>, cols: nat, limit: nat, k: int)
    requires
        0 <= k < ws.len(),
        utf8_len(ws[k]) > limit,
    ensures
        rows_fold(ws, cols, limit).0 >= ceil_div(utf8_len(ws[k]), cols),
    decreases ws.len(),
{
    if k < ws.len() - 1 {
        assert(ws.drop_last()[k] == ws[k]);
        lemma_fold_covers_long_word(ws.drop_last(), cols, limit, k);
    }
}

/// Number of the newest messages of `msgs` that are shown: at most `max`,
/// taken from the newest back for as long as their rows fit into `budget`.
pub open spec fn shown_count(
    msgs: Seq<MessageView>,
    cols: nat,
    limit: nat,
    budget: nat,
    max: nat,
) -> nat
    decreases msgs.len(),
{
    if msgs.len() == 0 || max == 0 {
        0
    } else {
        let rows = line_rows(spans_text(formatted_spec(msgs.last())), cols, limit);
        if rows > budget {
            0
        } else {
            1 + shown_count(msgs.drop_last(), cols, limit, (budget - rows) as nat, (max - 1) as nat)
        }
    }
}

/// Rows that the `k` newest messages of `msgs` take together.
pub open spec fn newest_rows(msgs: Seq<MessageView>, k: nat, cols: nat, limit: nat) -> nat
    decreases k,
{
    if k == 0 || msgs.len() == 0 {
        0
    } else {
        line_rows(spans_text(formatted_spec(msgs.last())), cols, limit) + newest_rows(
            msgs.drop_last(),
            (k - 1) as nat,
            cols,
            limit,
        )
    }
}

/// The message list never overflows its area: the shown messages are at
/// most `max` of the newest, their rows add up to at most `budget`, and
/// showing one more message (where there is one left to consider) would
/// exceed it.
pub proof fn lemma_shown_fits(msgs: Seq<MessageView>, cols: nat, limit: nat, budget: nat, max: nat)
    ensures
        shown_count(msgs, cols, limit, budget, max) <= max,
        shown_count(msgs, cols, limit, budget, max) <= msgs.len(),
        newest_rows(msgs, shown_count(msgs, cols, limit, budget, max), cols, limit) <= budget,
        shown_count(msgs, cols, limit, budget, max) < max && shown_count(
            msgs,
            cols,
            limit,
            budget,
            max,
        ) < msgs.len() ==> newest_rows(
            msgs,
            shown_count(msgs, cols, limit, budget, max) + 1,
            cols,
            limit,
        ) > budget,
    decreases msgs.len(),
{
    if msgs.len() == 0 || max == 0 {
    } else {
        let rows = line_rows(spans_text(formatted_spec(msgs.last())), cols, limit);
        if rows > budget {
        } else {
            lemma_shown_fits(msgs.drop_last(), cols, limit, (budget - rows) as nat, (max - 1) as nat);
        }
    }
}

/// Rows that `text` takes (see [`line_rows`]).
pub fn text_rows(text: &str, cols: usize, limit: usize) -> (r: usize)
    requires
        cols >= 1,
        utf8_len(text@) <= usize::MAX / 2,
    ensures
        r == line_rows(text@, cols as nat, limit as nat),
{
    let chars = chars_of(text);
    let (lens, total) = word_byte_lengths(&chars);
    let ghost ws = ascii_words(chars@);
    let n = lens.len();
    let mut rows: usize = 0;
    let mut pending: usize = 0;
    let mut has_long = false;
    let mut j: usize = 0;
    while j < n
        invariant
            cols >= 1,
            n == lens.len(),
            n == ws.len(),
            j <= n,
            forall|k: int| 0 <= k < n ==> lens@[k] == utf8_len(#[trigger] ws[k]),
            forall|k: int| 0 <= k < n ==> lens@[k] >= 1,
            sum_usizes(lens@) <= total,
            total <= usize::MAX / 2,
            (rows as nat, pending as nat) == rows_fold(ws.take(j as int), cols as nat, limit as nat),
            rows + pending <= 2 * sum_usizes(lens@.take(j as int)),
            has_long == exists|k: int| 0 <= k < j && utf8_len(#[trigger] ws[k]) > limit,
        decreases n - j,
    {
        let b = lens[j];
        proof {
            lemma_sum_usizes_prefix(lens@, j as int);
            assert(ws.take(j + 1).drop_last() =~= ws.take(j as int));
            assert(ws.take(j + 1).last() == ws[j as int]);
            lemma_ceil_div_le(pending as nat, cols as nat);
            lemma_ceil_div_le(b as nat, cols as nat);
        }
        if b > limit {
            rows = rows + div_ceil(pending, cols) + div_ceil(b, cols);
            pending = 0;
            has_long = true;
        } else {
            pending = pending + b + 1;
        }
        j = j + 1;
    }
    proof {
        assert(ws.take(n as int) =~= ws);
    }
    if has_long {
        rows
    } else {
        div_ceil(total, cols)
    }
}

/// The chat window: the messages received so far, the frames drawn, and
/// the room's address when this side hosts it.
pub struct ChatWindow {
    pub ip: Option<String>,
    pub messages: Vec<Message>,
    pub tick: u32,
}

/// What one frame shows: the two areas and the lines of the message list.
pub struct ChatFrame {
    pub message_area: Area,
    pub send_area: Area,
    pub lines: Vec<FormattedLine>,
}

impl ChatWindow {
    /// The messages, as views, oldest first.
    pub open spec fn message_views(&self) -> Seq<MessageView> {
        self.messages@.map_values(|m: Message| m@)
    }

    /// How many of the newest messages the window considers for an area of
    /// `height` rows: one less than the height.
    pub open spec fn considered(&self, height: u16) -> int {
        if self.messages.len() < height - 1 {
            self.messages.len() as int
        } else {
            height - 1
        }
    }

    /// Number of messages shown in a message area of the given size.
    pub open spec fn shown(&self, width: u16, height: u16) -> nat {
        shown_count(
            self.message_views(),
            (width - 2) as nat,
            (height - 2) as nat,
            (height - 2) as nat,
            (height - 1) as nat,
        )
    }

    /// An empty window; `ip` is the room's address when this side hosts it.
    pub fn new(ip: Option<String>) -> (r: ChatWindow)
        ensures
            r.ip == ip,
            r.messages@.len() == 0,
            r.tick == 0,
    {
        ChatWindow { ip, messages: Vec::new(), tick: 0 }
    }

    /// Adds `message` after the others.
    pub fn receive_message(&mut self, message: Message)
        ensures
            final(self).messages@ == old(self).messages@.push(message),
            final(self).ip == old(self).ip,
            final(self).tick == old(self).tick,
    {
        self.messages.push(message);
    }

    /// The title shown under the input box: the room's address, when there
    /// is one.
    pub fn room_title(&self) -> (r: Option<String>)
        ensures
            r is Some <==> self.ip is Some,
            r matches Some(t) ==> t@ == "IP da sala: "@ + self.ip->Some_0@,
    {
        match &self.ip {
            Some(ip) => {
                let mut t = String::from_str("IP da sala: ");
                t.append(ip.as_str());
                Some(t)
            },
            None => None,
        }
    }

    /// The lines of the message list in an area `width` × `height`: the
    /// newest messages that fit, oldest first. At most `height - 1` messages
    /// are considered, newest first, and they are taken as long as their rows
    /// add up to at most `height - 2`.
    pub fn visible_lines(&self, width: u16, height: u16) -> (r: Vec<FormattedLine>)
        requires
            height >= 1,
            self.messages.len() == 0 || height == 1 || width >= 3,
            forall|k: int|
                self.messages.len() - self.considered(height) <= k < self.messages.len()
                    ==> utf8_len(spans_text(formatted_spec(#[trigger] self.messages@[k]@)))
                    <= usize::MAX / 2,
        ensures
            r.len() == self.shown(width, height),
            forall|i: int|
                0 <= i < r.len() ==> (#[trigger] r@[i])@ == formatted_spec(
                    self.messages@[self.messages.len() - r.len() + i]@,
                ),
    {
        let n = self.messages.len();
        let max = (height - 1) as usize;
        let ghost msgs = self.message_views();
        if n == 0 || max == 0 {
            proof {
                assert(msgs.len() == 0 || max == 0);
            }
            return Vec::new();
        }
        let cols = (width - 2) as usize;
        let limit = (height - 2) as usize;
        let mut budget = limit;
        let mut j: usize = 0;
        assert(msgs.take(n as int) =~= msgs);
        while j < n && j < max
            invariant
                n == self.messages.len(),
                msgs == self.message_views(),
                max == height - 1,
                cols == width - 2,
                limit == height - 2,
                cols >= 1,
                j <= n,
                j <= max,
                budget <= limit,
                forall|k: int|
                    self.messages.len() - self.considered(height) <= k < self.messages.len()
                        ==> utf8_len(spans_text(formatted_spec(#[trigger] self.messages@[k]@)))
                        <= usize::MAX / 2,
                self.shown(width, height) == j + shown_count(
                    msgs.take(n - j),
                    cols as nat,
                    limit as nat,
                    budget as nat,
                    (max - j) as nat,
                ),
            ensures
                j <= n,
                self.shown(width, height) == j,
            decreases n - j,
        {
            let idx = n - 1 - j;
            let line = self.messages[idx].formatted();
            let text = line.text();
            let rows = text_rows(text.as_str(), cols, limit);
            let ghost rest = msgs.take(n - j);
            proof {
                assert(rest.last() == self.messages@[idx as int]@);
                assert(rest.drop_last() =~= msgs.take(n - j - 1));
                assert(line@ == formatted_spec(rest.last()));
            }
            if rows > budget {
                break;
            }
            budget = budget - rows;
            j = j + 1;
        }
        let shown = j;
        let mut r: Vec<FormattedLine> = Vec::new();
        let mut i: usize = n - shown;
        while i < n
            invariant
                n == self.messages.len(),
                shown <= n,
                n - shown <= i <= n,
                r.len() == i - (n - shown),
                forall|q: int|
                    0 <= q < r.len() ==> (#[trigger] r@[q])@ == formatted_spec(
                        self.messages@[n - shown + q]@,
                    ),
            decreases n - i,
        {
            r.push(self.messages[i].formatted());
            i = i + 1;
        }
        r
    }

    /// Lays out a frame of the terminal area `frame`: the two areas and the
    /// lines that the message list shows, or `None` where the message area
    /// is too small for the messages to be laid out or a message is too long
    /// to be measured.
    pub fn layout_frame(&self, frame: Area) -> (r: Option<ChatFrame>)
        ensures
            r matches Some(f) ==> {
                &&& (f.message_area, f.send_area) == chat_layout(frame)
                &&& f.message_area.x == frame.x && f.message_area.width == frame.width
                &&& f.send_area.x == frame.x && f.send_area.width == frame.width
                &&& frame.y + frame.height <= u16::MAX ==> stacked_areas(
                    frame,
                    MESSAGE_MIN_ROWS,
                    SEND_ROWS,
                    f.message_area,
                    f.send_area,
                )
                &&& f.lines.len() == self.shown(f.message_area.width, f.message_area.height)
                &&& forall|i: int|
                    0 <= i < f.lines.len() ==> (#[trigger] f.lines@[i])@ == formatted_spec(
                        self.messages@[self.messages.len() - f.lines.len() + i]@,
                    )
            },
            frame.y + frame.height <= u16::MAX ==> stacked_areas(
                frame,
                MESSAGE_MIN_ROWS,
                SEND_ROWS,
                chat_layout(frame).0,
                chat_layout(frame).1,
            ),
            frame.height >= 1 && frame.y + frame.height <= u16::MAX && (self.messages.len() == 0
                || frame.width >= 3) && (forall|k: int|
                0 <= k < self.messages.len() ==> utf8_len(
                    spans_text(formatted_spec(#[trigger] self.messages@[k]@)),
                ) <= usize::MAX / 2) ==> r is Some,
            r is None ==> {
                let m = chat_layout(frame).0;
                ||| m.height == 0
                ||| (self.messages.len() > 0 && m.height > 1 && m.width < 3)
                ||| exists|k: int|
                    self.messages.len() - self.considered(m.height) <= k < self.messages.len()
                        && utf8_len(spans_text(formatted_spec(#[trigger] self.messages@[k]@)))
                        > usize::MAX / 2
            },
    {
        let (message_area, send_area) = split_vertical(frame, MESSAGE_MIN_ROWS, SEND_ROWS);
        let h = message_area.height;
        let w = message_area.width;
        if h == 0 || (self.messages.len() > 0 && h > 1 && w < 3) {
            return None;
        }
        let n = self.messages.len();
        let considered: usize = if n < (h - 1) as usize {
            n
        } else {
            (h - 1) as usize
        };
        let mut k: usize = n - considered;
        while k < n
            invariant
                n == self.messages.len(),
                (message_area, send_area) == chat_layout(frame),
                frame.y + frame.height <= u16::MAX ==> stacked_areas(
                    frame,
                    MESSAGE_MIN_ROWS,
                    SEND_ROWS,
                    message_area,
                    send_area,
                ),
                h == message_area.height,
                h >= 1,
                considered == self.considered(h),
                n - considered <= k <= n,
                forall|q: int|
                    n - considered <= q < k ==> utf8_len(
                        spans_text(formatted_spec(#[trigger] self.messages@[q]@)),
                    ) <= usize::MAX / 2,
            decreases n - k,
        {
            let line = self.messages[k].formatted();
            let text = line.text();
            if !utf8_len_within(text.as_str(), usize::MAX / 2) {
                assert(utf8_len(spans_text(formatted_spec(self.messages@[k as int]@)))
                    > usize::MAX / 2);
                return None;
            }
            k = k + 1;
        }
        let lines = self.visible_lines(w, h);
        Some(ChatFrame { message_area, send_area, lines })
    }

    /// Ends a frame: `false` when `key` is Escape going down (the user
    /// quits; nothing else changes), else counts the frame and returns `true`.
    pub fn draw(&mut self, key: Option<KeyPress>) -> (r: bool)
        requires
            (key matches Some(k) && k.is_press && k.is_esc) || old(self).tick < u32::MAX,
        ensures
            r == !(key matches Some(k) && k.is_press && k.is_esc),
            r ==> final(self).tick == old(self).tick + 1,
            !r ==> final(self).tick == old(self).tick,
            final(self).messages@ == old(self).messages@,
            final(self).ip == old(self).ip,
    {
        if let Some(k) = key {
            if k.is_press && k.is_esc {
                return false;
            }
        }
        self.tick = self.tick + 1;
        true
    }
}

} // verus!
