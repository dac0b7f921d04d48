//! Where output and diagnostics go.
//!
//! A [`Sink`] collects what is written in the order in which it is written; whoever owns it
//! moves the chunks on to a device. An [`ErrSink`] says of each diagnostic text what is shown
//! locally and what is forwarded.
use vstd::prelude::*;
use vstd::string::*;

use crate::text;

verus! {

/// Collects output.
pub enum Sink {
    /// Keeps each write apart, for a reader that receives chunk by chunk.
    Channel(Vec<String>),
    /// Keeps the text as a whole.
    Memory(String),
}

/// What a sink holds.
pub enum SinkView {
    Channel(Seq<Seq<char>>),
    Memory(Seq<char>),
}

impl View for Sink {
    type V = SinkView;

    open spec fn view(&self) -> SinkView {
        match self {
            Sink::Channel(chunks) => SinkView::Channel(text::texts(chunks@)),
            Sink::Memory(text) => SinkView::Memory(text@),
        }
    }
}

impl SinkView {
    /// The sink after the chunks are written to it in order.
    pub open spec fn wrote(self, chunks: Seq<Seq<char>>) -> SinkView {
        match self {
            SinkView::Channel(before) => SinkView::Channel(before + chunks),
            SinkView::Memory(before) => SinkView::Memory(before + text::joined(chunks)),
        }
    }
}

/// Writing nothing changes nothing.
pub proof fn lemma_wrote_nothing(sink: SinkView)
    ensures
        sink.wrote(Seq::empty()) == sink,
{
    match sink {
        SinkView::Channel(before) => {
            assert(before + Seq::empty() =~= before);
        },
        SinkView::Memory(before) => {
            assert(before + text::joined(Seq::empty()) =~= before);
        },
    }
}

/// Writing chunks in two goes is writing them in one.
pub proof fn lemma_wrote_twice(sink: SinkView, first: Seq<Seq<char>>, second: Seq<Seq<char>>)
    ensures
        sink.wrote(first).wrote(second) == sink.wrote(first + second),
{
    match sink {
        SinkView::Channel(before) => {
            assert(before + first + second =~= before + (first + second));
        },
        SinkView::Memory(before) => {
            text::lemma_joined_add(first, second);
            assert(before + text::joined(first) + text::joined(second) =~= before + (text::joined(
                first,
            ) + text::joined(second)));
        },
    }
}

/// Every kind of sink holds the same text after the same writes.
pub proof fn law_sinks_hold_the_same(chunks: Seq<Seq<char>>)
    ensures
        SinkView::Channel(Seq::empty()).wrote(chunks) == SinkView::Channel(chunks),
        SinkView::Memory(Seq::empty()).wrote(chunks) == SinkView::Memory(text::joined(chunks)),
{
    assert(Seq::<Seq<char>>::empty() + chunks =~= chunks);
    assert(Seq::<char>::empty() + text::joined(chunks) =~= text::joined(chunks));
}

impl Sink {
    /// A sink that keeps each write apart.
    pub fn channel() -> (sink: Sink)
        ensures
            sink@ == SinkView::Channel(Seq::empty()),
    {
        let sink = Sink::Channel(Vec::new());
        assert(sink@->Channel_0 =~= Seq::empty());
        sink
    }

    /// A sink that keeps the text as a whole.
    pub fn memory() -> (sink: Sink)
        ensures
            sink@ == SinkView::Memory(Seq::empty()),
    {
        let sink = Sink::Memory(String::new());
        assert(sink@->Memory_0 =~= Seq::empty());
        sink
    }

    /// The text, where it was kept as a whole.
    pub fn into_memory(self) -> (result: Option<String>)
        ensures
            match self@ {
                SinkView::Memory(held) => result matches Some(text) && text@ == held,
                SinkView::Channel(_) => result is None,
            },
    {
        match self {
            Sink::Memory(text) => Some(text),
            Sink::Channel(_) => None,
        }
    }

    pub fn write_str(&mut self, s: &str)
        ensures
            final(self)@ == old(self)@.wrote(seq![s@]),
    {
        let ghost before = self@;
        proof {
            text::lemma_joined_push(Seq::empty(), s@);
            assert(Seq::empty().push(s@) =~= seq![s@]);
            assert(text::joined(seq![s@]) =~= s@);
        }
        match self {
            Sink::Channel(chunks) => {
                let ghost prior = chunks@;
                chunks.push(s.to_owned());
                assert(text::texts(chunks@) =~= text::texts(prior) + seq![s@]);
            },
            Sink::Memory(text) => {
                text.append(s);
            },
        }
    }

    /// The chunks written so far, which leave the sink. A sink that keeps the text as a whole
    /// keeps it.
    pub fn take_chunks(&mut self) -> (chunks: Vec<String>)
        ensures
            match old(self)@ {
                SinkView::Channel(held) => {
                    &&& text::texts(chunks@) == held
                    &&& final(self)@ == SinkView::Channel(Seq::empty())
                },
                SinkView::Memory(_) => {
                    &&& chunks@.len() == 0
                    &&& final(self)@ == old(self)@
                },
            },
    {
        match self {
            Sink::Channel(held) => {
                let mut chunks: Vec<String> = Vec::new();
                std::mem::swap(&mut chunks, held);
                assert(text::texts(held@) =~= Seq::empty());
                chunks
            },
            Sink::Memory(_) => Vec::new(),
        }
    }

    /// Ends the output. Nothing is held back, so nothing is left to write.
    pub fn finish(&mut self)
        ensures
            *final(self) == *old(self),
    {
    }
}

/// Takes diagnostic and stats text.
#[derive(Clone, Copy, Debug, PartialEq, Eq)]
pub enum ErrSink {
    /// Shown as it is.
    Local,
    /// Forwarded as it is.
    Channel,
    /// Shown line by line under the number of the connection unless `quiet`, and forwarded
    /// only where the client asked for it.
    Server { forward_to_client: bool, quiet: bool, conn_id: u64 },
}

/// What becomes of a diagnostic text.
#[derive(Debug, PartialEq, Eq)]
pub struct Emission {
    /// The text for the process's own diagnostics; empty where there is none.
    pub shown: String,
    /// The text for the client.
    pub forwarded: Option<String>,
}

/// The lines under the number of a connection.
pub open spec fn numbered(conn_id: u64, lines: Seq<Seq<char>>) -> Seq<char>
    decreases lines.len(),
{
    if lines.len() == 0 {
        Seq::empty()
    } else {
        numbered(conn_id, lines.drop_last()) + "#"@ + text::decimal(conn_id as nat) + " "@
            + lines.last() + "\n"@
    }
}

impl ErrSink {
    pub open spec fn shown(self, s: Seq<char>) -> Seq<char> {
        match self {
            ErrSink::Local => s,
            ErrSink::Channel => Seq::empty(),
            ErrSink::Server { quiet, conn_id, .. } => if quiet {
                Seq::empty()
            } else {
                numbered(conn_id, text::lines(s))
            },
        }
    }

    pub open spec fn forwarded(self, s: Seq<char>) -> Option<Seq<char>> {
        match self {
            ErrSink::Local => None,
            ErrSink::Channel => Some(s),
            ErrSink::Server { forward_to_client, .. } => if forward_to_client {
                Some(s)
            } else {
                None
            },
        }
    }

    pub fn emit(&self, s: &str) -> (emission: Emission)
        ensures
            emission.shown@ == self.shown(s@),
            match emission.forwarded {
                Some(text) => self.forwarded(s@) == Some(text@),
                None => self.forwarded(s@) is None,
            },
    {
        match self {
            ErrSink::Local => Emission { shown: s.to_owned(), forwarded: None },
            ErrSink::Channel => Emission { shown: String::new(), forwarded: Some(s.to_owned()) },
            ErrSink::Server { forward_to_client, quiet, conn_id } => {
                let shown = if *quiet {
                    String::new()
                } else {
                    number_lines(*conn_id, s)
                };
                let forwarded = if *forward_to_client {
                    Some(s.to_owned())
                } else {
                    None
                };
                Emission { shown, forwarded }
            },
        }
    }
}

fn number_lines(conn_id: u64, s: &str) -> (result: String)
    ensures
        result@ == numbered(conn_id, text::lines(s@)),
{
    let lines = text::split_lines(s);
    let ghost all = text::lines(s@);
    let mut result = String::new();
    let mut i: usize = 0;
    assert(all.take(0) =~= Seq::empty());
    while i < lines.len()
        invariant
            i <= lines@.len(),
            text::texts(lines@) == all,
            result@ == numbered(conn_id, all.take(i as int)),
        decreases lines@.len() - i,
    {
        assert(all.take(i + 1).drop_last() =~= all.take(i as int));
        assert(all[i as int] == lines@[i as int]@);
        result.append("#");
        let number = text::decimal_text(conn_id);
        result.append(number.as_str());
        result.append(" ");
        result.append(lines[i].as_str());
        result.append("\n");
        i += 1;
    }
    assert(all.take(i as int) =~= all);
    result
}

/// What is written comes behind what was written before, whole and in order.
pub proof fn law_writes_come_one_after_the_other(
    before: Seq<Seq<char>>,
    held: Seq<char>,
    chunk: Seq<char>,
)
    ensures
        SinkView::Channel(before).wrote(seq![chunk]) == SinkView::Channel(before.push(chunk)),
        SinkView::Memory(held).wrote(seq![chunk]) == SinkView::Memory(held + chunk),
{
    assert(before + seq![chunk] =~= before.push(chunk));
    assert(seq![chunk].drop_last() =~= Seq::empty());
    reveal_with_fuel(text::joined, 2);
    assert(text::joined(seq![chunk]) =~= chunk);
}

/// What becomes of diagnostic text: it is shown as it is where the process works for itself, and
/// forwarded as it is where it works for another. A server shows it line by line under the
/// number of the connection unless it is quiet, and forwards it where the client asked for it.
pub proof fn law_where_diagnostics_go(
    s: Seq<char>,
    forward_to_client: bool,
    quiet: bool,
    conn_id: u64,
)
    ensures
        ErrSink::Local.shown(s) == s,
        ErrSink::Local.forwarded(s) is None,
        ErrSink::Channel.shown(s).len() == 0,
        ErrSink::Channel.forwarded(s) == Some(s),
        ({
            let server = ErrSink::Server { forward_to_client, quiet, conn_id };
            &&& server.forwarded(s) == (if forward_to_client {
                Some(s)
            } else {
                None
            })
            &&& quiet ==> server.shown(s).len() == 0
            &&& !quiet ==> server.shown(s) == numbered(conn_id, text::lines(s))
        }),
{
}

/// Every line is shown, in order, each under the number of the connection.
pub proof fn law_every_line_is_numbered(conn_id: u64, lines: Seq<Seq<char>>, line: Seq<char>)
    ensures
        numbered(conn_id, Seq::empty()).len() == 0,
        numbered(conn_id, lines.push(line)) == numbered(conn_id, lines) + "#"@ + text::decimal(
            conn_id as nat,
        ) + " "@ + line + "\n"@,
{
    assert(lines.push(line).drop_last() =~= lines);
}

} // verus!
