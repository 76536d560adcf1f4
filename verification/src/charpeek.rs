//! A line reader with one byte of lookahead, fed from outside.
//!
//! The reader performs no input itself. Whoever owns the stream hands the
//! bytes over with [`Charpeek::feed`] as they arrive and calls
//! [`Charpeek::close`] at the end of the stream. Between those calls the
//! reader answers from what it holds: it can show the next byte without
//! taking it, pass that byte on untouched, or cut the next line off.

use vstd::prelude::*;
use vstd::utf8::*;
use crate::text::{
    chars_of, chomp, chomp_in_place, decode_text, is_eol, lemma_chomp_splits, terminator, text_of,
};

verus! {

/// The line feed byte, which ends a line.
pub const NEWLINE: u8 = 10;

/// What a reader holds, as plain data: the byte looked at, the bytes behind
/// it, and whether the stream has ended.
pub struct Tape {
    pub peek: Option<u8>,
    pub rest: Seq<u8>,
    pub closed: bool,
}

/// The lookahead as a sequence of at most one byte.
pub open spec fn held(peek: Option<u8>) -> Seq<u8> {
    match peek {
        Some(b) => seq![b],
        None => Seq::empty(),
    }
}

/// The length of the first line of `s`, its line feed included. Where `s`
/// holds no line feed this is the length of `s`.
pub open spec fn line_len(s: Seq<u8>) -> nat
    decreases s.len(),
{
    if s.len() == 0 {
        0
    } else if s[0] == NEWLINE {
        1
    } else {
        1 + line_len(s.skip(1))
    }
}

impl Tape {
    /// Everything that was received and not yet handed on, in stream order.
    pub open spec fn unread(self) -> Seq<u8> {
        held(self.peek) + self.rest
    }

    /// No byte is left and none will come.
    pub open spec fn at_end(self) -> bool {
        self.closed && self.unread().len() == 0
    }

    pub open spec fn after_feed(self, bytes: Seq<u8>) -> Tape {
        Tape { rest: self.rest + bytes, ..self }
    }

    pub open spec fn after_close(self) -> Tape {
        Tape { closed: true, ..self }
    }

    /// Looking at the next byte moves it into the lookahead, unless one is
    /// there already or nothing is buffered.
    pub open spec fn after_peek(self) -> Tape {
        if self.peek is None && self.rest.len() > 0 {
            Tape { peek: Some(self.rest[0]), rest: self.rest.skip(1), ..self }
        } else {
            self
        }
    }

    pub open spec fn after_flush(self) -> Tape {
        Tape { peek: None, ..self }
    }

    /// A whole line can be cut off: a line feed is buffered, or the stream
    /// has ended with bytes left over.
    pub open spec fn line_ready(self) -> bool {
        self.unread().contains(NEWLINE) || (self.closed && self.unread().len() > 0)
    }

    /// The bytes of the next line, line feed included.
    pub open spec fn raw_line(self) -> Seq<u8> {
        self.unread().take(line_len(self.unread()) as int)
    }

    pub open spec fn after_line(self) -> Tape {
        if self.line_ready() {
            Tape {
                peek: None,
                rest: self.unread().skip(line_len(self.unread()) as int),
                ..self
            }
        } else {
            self
        }
    }

    /// The next line as text, without its line terminator. There is none
    /// while no whole line is buffered, and none where the bytes of the line
    /// are not UTF-8.
    pub open spec fn line(self) -> Option<Seq<char>> {
        if self.line_ready() && valid_utf8(self.raw_line()) {
            Some(chomp(decode_utf8(self.raw_line())))
        } else {
            None
        }
    }
}

/// Yields lines from the bytes it is fed, and allows to peek one byte from
/// the next line.
pub struct Charpeek {
    queue: Vec<u8>,
    head: usize,
    closed: bool,
    peek: Option<u8>,
}

impl View for Charpeek {
    type V = Tape;

    closed spec fn view(&self) -> Tape {
        Tape {
            peek: self.peek,
            rest: if self.head <= self.queue.len() {
                self.queue@.skip(self.head as int)
            } else {
                Seq::empty()
            },
            closed: self.closed,
        }
    }
}

impl Charpeek {
    /// A reader that has received nothing yet.
    pub fn new() -> (c: Self)
        ensures
            c@ == (Tape { peek: None, rest: Seq::empty(), closed: false }),
    {
        let c = Charpeek { queue: Vec::new(), head: 0, closed: false, peek: None };
        assert(c@.rest =~= Seq::empty());
        c
    }

    /// Takes over bytes that arrived on the stream.
    pub fn feed(&mut self, bytes: &[u8])
        ensures
            final(self)@ == old(self)@.after_feed(bytes@),
    {
        if self.head >= self.queue.len() {
            self.queue.clear();
        } else if self.head > 0 {
            let tail = self.queue.split_off(self.head);
            self.queue = tail;
        }
        self.head = 0;
        assert(self@.rest =~= old(self)@.rest);
        self.queue.extend_from_slice(bytes);
        assert(self@.rest =~= old(self)@.rest + bytes@);
    }

    /// Records that the stream has ended.
    pub fn close(&mut self)
        ensures
            final(self)@ == old(self)@.after_close(),
    {
        self.closed = true;
    }

    /// Whether all bytes were handed on and the stream has ended.
    pub fn at_end(&self) -> (b: bool)
        ensures
            b == self@.at_end(),
    {
        self.closed && self.peek.is_none() && self.head >= self.queue.len()
    }

    /// The next unread byte, which stays unread. `None` where nothing is
    /// buffered. Asking again gives the same byte.
    pub fn peek_byte(&mut self) -> (b: Option<u8>)
        ensures
            final(self)@ == old(self)@.after_peek(),
            b == final(self)@.peek,
    {
        match self.peek {
            Some(x) => Some(x),
            None => {
                if self.head < self.queue.len() {
                    let x = self.queue[self.head];
                    self.head = self.head + 1;
                    self.peek = Some(x);
                    assert(self@.rest =~= old(self)@.rest.skip(1));
                    Some(x)
                } else {
                    None
                }
            },
        }
    }

    /// Hands the byte that was looked at on to `sink` as it is. Without a
    /// lookahead this does nothing.
    pub fn flush_peek(&mut self, sink: &mut Vec<u8>)
        ensures
            final(self)@ == old(self)@.after_flush(),
            final(sink)@ == old(sink)@ + held(old(self)@.peek),
    {
        match self.peek {
            Some(x) => {
                sink.push(x);
                assert(sink@ =~= old(sink)@ + held(old(self)@.peek));
            },
            None => {
                assert(sink@ =~= old(sink)@ + held(old(self)@.peek));
            },
        }
        self.peek = None;
    }

    /// Whether `next_line` can cut a whole line off.
    pub fn line_ready(&self) -> (b: bool)
        ensures
            b == self@.line_ready(),
    {
        if self.peek == Some(NEWLINE) {
            assert(self@.unread()[0] == NEWLINE);
            return true;
        }
        let mut j: usize = self.head;
        while j < self.queue.len()
            invariant
                self.head <= j,
                forall|i: int| self.head <= i < j && i < self.queue.len() ==> self.queue[i] != NEWLINE,
            decreases self.queue.len() - j,
        {
            if self.queue[j] == NEWLINE {
                assert(self@.rest[j - self.head] == NEWLINE);
                assert(self@.unread()[held(self.peek).len() + j - self.head] == NEWLINE);
                return true;
            }
            j = j + 1;
        }
        assert(!self@.unread().contains(NEWLINE));
        self.closed && (self.peek.is_some() || self.head < self.queue.len())
    }

    /// Cuts the next line off and returns it without its terminator: the
    /// byte that was looked at, if any, and the bytes up to and including the
    /// next line feed. At the end of the stream the bytes left over count as
    /// a line. `None` where no whole line is buffered; in that case nothing
    /// changes. `None` also where the line is not UTF-8; the line is
    /// dropped then.
    pub fn next_line(&mut self) -> (line: Option<String>)
        ensures
            final(self)@ == old(self)@.after_line(),
            option_text(line) == old(self)@.line(),
    {
        if !self.line_ready() {
            return None;
        }
        let ghost unread = self@.unread();
        let mut raw: Vec<u8> = Vec::new();
        let mut done = false;
        match self.peek {
            Some(x) => {
                raw.push(x);
                done = x == NEWLINE;
            },
            None => {},
        }
        self.peek = None;
        assert(raw@ =~= held(old(self)@.peek));
        while !done && self.head < self.queue.len()
            invariant
                self.queue == old(self).queue,
                self.closed == old(self).closed,
                self.peek is None,
                old(self).head <= self.head,
                self.head <= self.queue.len() || (self.head == old(self).head),
                unread == old(self)@.unread(),
                unread == raw@ + self@.rest,
                done ==> raw@.len() > 0 && raw@.last() == NEWLINE,
                forall|i: int| 0 <= i < raw@.len() - 1 ==> raw@[i] != NEWLINE,
                !done && raw@.len() > 0 ==> raw@.last() != NEWLINE,
            decreases self.queue.len() - self.head, if done { 0int } else { 1int },
        {
            let x = self.queue[self.head];
            let ghost before = self@.rest;
            self.head = self.head + 1;
            raw.push(x);
            done = x == NEWLINE;
            assert(self@.rest =~= before.skip(1));
            assert(raw@ + self@.rest =~= unread);
        }
        proof {
            if done {
                lemma_line_len(unread, raw@.len() - 1);
            } else {
                assert(self@.rest =~= Seq::empty());
                assert(raw@ =~= unread);
                lemma_line_len(unread, unread.len() as int);
            }
            assert(raw@ =~= old(self)@.raw_line());
            assert(self@.rest =~= unread.skip(raw@.len() as int));
        }
        match decode_text(raw) {
            Some(text) => {
                let mut chars = chars_of(text.as_str());
                chomp_in_place(&mut chars);
                Some(text_of(&chars))
            },
            None => None,
        }
    }
}

/// The view of a line that may be missing.
pub open spec fn option_text(line: Option<String>) -> Option<Seq<char>> {
    match line {
        Some(s) => Some(s@),
        None => None,
    }
}

/// Where the first line feed of `s` stands, `line_len` is one more; without
/// a line feed it is the length of `s`.
pub proof fn lemma_line_len(s: Seq<u8>, k: int)
    requires
        0 <= k <= s.len(),
        forall|i: int| 0 <= i < k ==> s[i] != NEWLINE,
        k < s.len() ==> s[k] == NEWLINE,
    ensures
        line_len(s) == if k < s.len() { k + 1 } else { k },
    decreases k,
{
    if k > 0 {
        let t = s.skip(1);
        assert forall|i: int| 0 <= i < k - 1 implies t[i] != NEWLINE by {
            assert(t[i] == s[i + 1]);
        }
        lemma_line_len(t, k - 1);
    }
}

/// One use of a reader.
pub enum Op {
    Feed(Seq<u8>),
    Close,
    Peek,
    Flush,
    NextLine,
}

impl Op {
    /// The bytes that the use brings in.
    pub open spec fn brings(self) -> Seq<u8> {
        match self {
            Op::Feed(bytes) => bytes,
            _ => Seq::empty(),
        }
    }
}

/// The bytes that all of `ops` bring in, in order.
pub open spec fn brought(ops: Seq<Op>) -> Seq<u8>
    decreases ops.len(),
{
    if ops.len() == 0 {
        Seq::empty()
    } else {
        ops[0].brings() + brought(ops.skip(1))
    }
}

impl Tape {
    /// The reader after one use.
    pub open spec fn after(self, op: Op) -> Tape {
        match op {
            Op::Feed(bytes) => self.after_feed(bytes),
            Op::Close => self.after_close(),
            Op::Peek => self.after_peek(),
            Op::Flush => self.after_flush(),
            Op::NextLine => self.after_line(),
        }
    }

    /// The bytes that one use hands on: the byte that `flush_peek` passes to
    /// its sink, or the bytes of the line that `next_line` cuts off.
    pub open spec fn hands_on(self, op: Op) -> Seq<u8> {
        match op {
            Op::Flush => held(self.peek),
            Op::NextLine => if self.line_ready() {
                self.raw_line()
            } else {
                Seq::empty()
            },
            _ => Seq::empty(),
        }
    }

    /// The reader after a series of uses.
    pub open spec fn after_all(self, ops: Seq<Op>) -> Tape
        decreases ops.len(),
    {
        if ops.len() == 0 {
            self
        } else {
            self.after(ops[0]).after_all(ops.skip(1))
        }
    }

    /// All that a series of uses hands on, in order.
    pub open spec fn hands_on_all(self, ops: Seq<Op>) -> Seq<u8>
        decreases ops.len(),
    {
        if ops.len() == 0 {
            Seq::empty()
        } else {
            self.hands_on(ops[0]) + self.after(ops[0]).hands_on_all(ops.skip(1))
        }
    }
}

/// One use neither loses a byte nor repeats one: what it hands on, followed
/// by what is unread after it, is what was unread before it followed by what
/// it brought in.
pub proof fn lemma_use_keeps_bytes(t: Tape, op: Op)
    ensures
        t.hands_on(op) + t.after(op).unread() == t.unread() + op.brings(),
{
    match op {
        Op::Feed(bytes) => {
            assert(t.after(op).unread() =~= t.unread() + bytes);
            assert(t.hands_on(op) + t.after(op).unread() =~= t.unread() + op.brings());
        },
        Op::Close => {
            assert(t.hands_on(op) + t.after(op).unread() =~= t.unread() + op.brings());
        },
        Op::Peek => {
            assert(t.after(op).unread() =~= t.unread());
            assert(t.hands_on(op) + t.after(op).unread() =~= t.unread() + op.brings());
        },
        Op::Flush => {
            assert(t.after(op).unread() =~= t.rest);
            assert(t.hands_on(op) + t.after(op).unread() =~= t.unread() + op.brings());
        },
        Op::NextLine => {
            if t.line_ready() {
                let u = t.unread();
                lemma_line_len_bound(u);
                assert(t.after(op).unread() =~= u.skip(line_len(u) as int));
                assert(u.take(line_len(u) as int) + u.skip(line_len(u) as int) =~= u);
            }
            assert(t.hands_on(op) + t.after(op).unread() =~= t.unread() + op.brings());
        },
    }
}

/// However peeking, flushing, cutting lines off and feeding are interleaved,
/// the bytes come out as they went in: the flushed bytes and the lines, each
/// with its terminator, in the order of the calls, followed by what is still
/// unread, are the bytes that were unread at the start followed by the bytes
/// fed since.
pub proof fn lemma_stream_is_preserved(t: Tape, ops: Seq<Op>)
    ensures
        t.hands_on_all(ops) + t.after_all(ops).unread() == t.unread() + brought(ops),
    decreases ops.len(),
{
    if ops.len() == 0 {
        assert(t.hands_on_all(ops) + t.after_all(ops).unread() =~= t.unread() + brought(ops));
    } else {
        let next = t.after(ops[0]);
        lemma_use_keeps_bytes(t, ops[0]);
        lemma_stream_is_preserved(next, ops.skip(1));
        assert(t.hands_on_all(ops) + t.after_all(ops).unread() =~= t.hands_on(ops[0]) + (
        next.hands_on_all(ops.skip(1)) + next.after_all(ops.skip(1)).unread()));
        assert(t.unread() + brought(ops) =~= (t.unread() + ops[0].brings()) + brought(
            ops.skip(1),
        ));
    }
}

/// A line that `next_line` returns stands for exactly the bytes that were
/// taken for it: put back in front of the line feeds and carriage returns
/// that were cut from its end, it encodes to those bytes.
pub proof fn lemma_line_restores_bytes(t: Tape)
    requires
        t.line() is Some,
    ensures
        ({
            let text = decode_utf8(t.raw_line());
            let line = t.line()->0;
            &&& line + terminator(text) == text
            &&& forall|i: int| 0 <= i < terminator(text).len() ==> is_eol(#[trigger] terminator(text)[i])
            &&& encode_utf8(line + terminator(text)) == t.raw_line()
        }),
{
    let text = decode_utf8(t.raw_line());
    lemma_chomp_splits(text);
    decode_utf8_encode_utf8(t.raw_line());
}

/// The first line is no longer than the whole.
pub proof fn lemma_line_len_bound(s: Seq<u8>)
    ensures
        line_len(s) <= s.len(),
        s.len() > 0 ==> line_len(s) > 0,
    decreases s.len(),
{
    if s.len() > 0 && s[0] != NEWLINE {
        lemma_line_len_bound(s.skip(1));
    }
}

} // verus!
