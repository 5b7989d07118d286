//! Chat messages exchanged with the model.
use vstd::prelude::*;

use crate::json::JsonValue;
use crate::sandbox::{lemma_split_append, split_char};
use crate::text::{chars_of, owned, push_char, push_str, string_of_range, trim, trim_seq, views};

verus! {

/// One chat message: a role (`system`, `user`, `assistant`) and its text.
#[derive(Debug)]
pub struct ChatMessage {
    pub role: String,
    pub content: String,
}

/// A message as a pair of role and text.
pub open spec fn msg_view(m: ChatMessage) -> (Seq<char>, Seq<char>) {
    (m.role@, m.content@)
}

/// The views of a list of messages.
pub open spec fn msgs_view(ms: Seq<ChatMessage>) -> Seq<(Seq<char>, Seq<char>)> {
    ms.map_values(|m: ChatMessage| msg_view(m))
}

impl ChatMessage {
    /// A system message.
    pub fn system(content: String) -> (r: ChatMessage)
        ensures
            r.role@ == "system"@,
            r.content@ == content@,
    {
        ChatMessage { role: owned("system"), content }
    }

    /// A user message.
    pub fn user(content: String) -> (r: ChatMessage)
        ensures
            r.role@ == "user"@,
            r.content@ == content@,
    {
        ChatMessage { role: owned("user"), content }
    }

    /// An assistant message.
    pub fn assistant(content: String) -> (r: ChatMessage)
        ensures
            r.role@ == "assistant"@,
            r.content@ == content@,
    {
        ChatMessage { role: owned("assistant"), content }
    }
}

/// `url` without its trailing slashes.
pub open spec fn without_trailing_slashes(url: Seq<char>) -> Seq<char>
    decreases url.len(),
{
    if url.len() > 0 && url.last() == '/' {
        without_trailing_slashes(url.drop_last())
    } else {
        url
    }
}

/// The base URL of a model server as kept: without trailing slashes.
pub fn normalize_base_url(url: &str) -> (r: String)
    ensures
        r@ == without_trailing_slashes(url@),
{
    let v = chars_of(url);
    let mut n = v.len();
    proof {
        assert(v@.take(n as int) =~= v@);
    }
    while n > 0 && v[n - 1] == '/'
        invariant
            n <= v@.len(),
            v@ == url@,
            without_trailing_slashes(url@) == without_trailing_slashes(v@.take(n as int)),
        decreases n,
    {
        proof {
            assert(v@.take(n as int).drop_last() =~= v@.take(n - 1));
        }
        n -= 1;
    }
    let r = string_of_range(&v, 0, n);
    proof {
        assert(v@.subrange(0, n as int) =~= v@.take(n as int));
    }
    r
}

/// A tool call the model made natively: the tool and its arguments.
#[derive(Debug)]
pub struct NativeToolCall {
    pub name: String,
    pub arguments: JsonValue,
}

/// A model reply: its text and the tool calls it made natively.
#[derive(Debug)]
pub struct ChatOutcome {
    pub content: String,
    pub tool_calls: Vec<NativeToolCall>,
}

/// The lines of a stream worth reading: each complete line trimmed, empty ones dropped.
pub open spec fn stream_lines(d: Seq<Seq<char>>) -> Seq<Seq<char>>
    decreases d.len(),
{
    if d.len() == 0 {
        seq![]
    } else {
        let r = stream_lines(d.drop_last());
        let t = trim_seq(d.last());
        if t.len() == 0 {
            r
        } else {
            r.push(t)
        }
    }
}

/// The text of a streamed reply received so far that does not yet end a line.
pub struct LineBuffer {
    buf: String,
}

impl View for LineBuffer {
    type V = Seq<char>;

    /// The pending text.
    closed spec fn view(&self) -> Seq<char> {
        self.buf@
    }
}

impl LineBuffer {
    /// Nothing pending.
    pub fn new() -> (r: LineBuffer)
        ensures
            r@ == Seq::<char>::empty(),
    {
        LineBuffer { buf: String::new() }
    }

    /// Adds received text and takes out the lines it completes: each trimmed, empty ones
    /// dropped; what follows the last newline stays pending.
    pub fn push(&mut self, text: &str) -> (r: Vec<String>)
        ensures
            ({
                let (d, c) = split_char(old(self)@ + text@, '\n');
                &&& views(r@) == stream_lines(d)
                &&& final(self)@ == c
            }),
    {
        let mut all = self.buf.clone();
        push_str(&mut all, text);
        let v = chars_of(all.as_str());
        let mut out: Vec<String> = Vec::new();
        let mut done: Vec<String> = Vec::new();
        let mut cur = String::new();
        let mut i: usize = 0;
        while i < v.len()
            invariant
                i <= v.len(),
                v@ == old(self)@ + text@,
                (views(done@), cur@) == split_char(v@.take(i as int), '\n'),
                views(out@) == stream_lines(views(done@)),
            decreases v.len() - i,
        {
            let c = v[i];
            proof {
                assert(v@.take(i + 1).drop_last() =~= v@.take(i as int));
                assert(v@.take(i + 1).last() == c);
            }
            if c == '\n' {
                let t = trim(cur.as_str());
                let ghost d0 = done@;
                let ghost o0 = out@;
                done.push(cur);
                proof {
                    assert(views(done@) =~= views(d0).push(split_char(v@.take(i as int), '\n').1));
                    assert(views(done@).drop_last() =~= views(d0));
                }
                if !t.as_str().is_empty() {
                    out.push(t);
                    proof {
                        assert(views(out@) =~= views(o0).push(t@));
                    }
                }
                cur = String::new();
            } else {
                push_char(&mut cur, c);
            }
            i += 1;
        }
        proof {
            assert(v@.take(v@.len() as int) =~= v@);
        }
        self.buf = cur;
        out
    }
}

/// The lines kept from two runs of completed lines are those kept from each, in order.
proof fn lemma_stream_lines_append(a: Seq<Seq<char>>, b: Seq<Seq<char>>)
    ensures
        stream_lines(a + b) == stream_lines(a) + stream_lines(b),
    decreases b.len(),
{
    if b.len() == 0 {
        assert(a + b =~= a);
        assert(stream_lines(a) + stream_lines(b) =~= stream_lines(a));
    } else {
        lemma_stream_lines_append(a, b.drop_last());
        assert((a + b).drop_last() =~= a + b.drop_last());
        assert((a + b).last() == b.last());
        let t = trim_seq(b.last());
        if t.len() > 0 {
            assert((stream_lines(a) + stream_lines(b.drop_last())).push(t) =~= stream_lines(a)
                + stream_lines(b.drop_last()).push(t));
        }
    }
}

/// However a streamed reply is cut into pieces, the lines read from it are the same: feeding
/// `a` and then `b` to a buffer holding `pending` gives, in order, the lines that feeding
/// `a + b` at once gives, and leaves the same text pending.
pub proof fn law_stream_pieces(pending: Seq<char>, a: Seq<char>, b: Seq<char>)
    ensures
        ({
            let (d1, c1) = split_char(pending + a, '\n');
            let (d2, c2) = split_char(c1 + b, '\n');
            let (d, c) = split_char(pending + a + b, '\n');
            stream_lines(d1) + stream_lines(d2) == stream_lines(d) && c2 == c
        }),
{
    lemma_split_append(pending + a, b, '\n');
    let (d1, c1) = split_char(pending + a, '\n');
    let (d2, c2) = split_char(c1 + b, '\n');
    lemma_stream_lines_append(d1, d2);
}

} // verus!
