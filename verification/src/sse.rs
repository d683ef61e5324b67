//! Decoding of the model server's streamed reply: server-sent-event lines,
//! the JSON chunk each `data:` line carries, and the reassembly of the reply.
use vstd::prelude::*;
use crate::json::{
    field, item, json_field, json_item, json_text, json_view, lemma_member_first, opt_json_view, parse_json, parsed_json, Json,
    JsonView,
};
use crate::text::{chars_of, lossy_text, lossy_utf8, string_from_chars, trim, trim_str, lemma_trim_idempotent};

verus! {

/// The byte that ends a line of the event stream.
pub const NEWLINE: u8 = 10;

/// The prefix that marks a data line.
pub open spec fn data_prefix() -> Seq<char> {
    seq!['d', 'a', 't', 'a', ':']
}

/// The payload that marks the end of the stream.
pub open spec fn done_marker() -> Seq<char> {
    seq!['[', 'D', 'O', 'N', 'E', ']']
}

/// What a line of the event stream carries.
pub enum SseLine {
    /// Not a data line (a comment, an `event:` line, a blank line, ...).
    Skip,
    /// The `data: [DONE]` line that ends the stream.
    Done,
    /// The (trimmed) payload of a data line.
    Data(String),
}

/// The mathematical value of an `SseLine`.
pub enum SseLineView {
    Skip,
    Done,
    Data(Seq<char>),
}

impl View for SseLine {
    type V = SseLineView;

    open spec fn view(&self) -> SseLineView {
        match self {
            SseLine::Skip => SseLineView::Skip,
            SseLine::Done => SseLineView::Done,
            SseLine::Data(s) => SseLineView::Data(s@),
        }
    }
}

/// The meaning of one line: trimmed, it must start with `data:`; the rest,
/// trimmed again, is either the end marker or the payload.
pub open spec fn classify_sse_line(line: Seq<char>) -> SseLineView {
    let t = trim(line);
    if t.len() >= 5 && t.take(5) == data_prefix() {
        let d = trim(t.skip(5));
        if d == done_marker() {
            SseLineView::Done
        } else {
            SseLineView::Data(d)
        }
    } else {
        SseLineView::Skip
    }
}

/// A line whose text, trimmed, is `data:` followed by a payload carries that
/// payload trimmed, whatever its length, or the end of the stream where the
/// trimmed payload is `[DONE]`; a line whose trimmed text does not start with
/// `data:` carries nothing.
pub proof fn lemma_classify_data_line(line: Seq<char>, payload: Seq<char>)
    ensures
        trim(line) == "data:"@ + payload ==> classify_sse_line(line) == if trim(payload) == "[DONE]"@ {
            SseLineView::Done
        } else {
            SseLineView::Data(trim(payload))
        },
        !(trim(line).len() >= 5 && trim(line).take(5) == "data:"@) ==> classify_sse_line(line) == SseLineView::Skip,
{
    reveal_strlit("data:");
    reveal_strlit("[DONE]");
    assert("data:"@ =~= data_prefix());
    assert("[DONE]"@ =~= done_marker());
    if trim(line) == "data:"@ + payload {
        let t = trim(line);
        assert(t.take(5) =~= data_prefix());
        assert(t.skip(5) =~= payload);
    }
}

/// Trimming a line first does not change what it carries.
pub proof fn lemma_classify_trimmed(line: Seq<char>)
    ensures
        classify_sse_line(trim(line)) == classify_sse_line(line),
{
    lemma_trim_idempotent(line);
}

/// Classifies one line of the event stream.
pub fn parse_sse_line(line: &str) -> (r: SseLine)
    ensures
        r@ == classify_sse_line(line@),
{
    let t = trim_str(line);
    let v = chars_of(t.as_str());
    if v.len() >= 5 && v[0] == 'd' && v[1] == 'a' && v[2] == 't' && v[3] == 'a' && v[4] == ':' {
        assert(v@.take(5) =~= data_prefix());
        let rest = string_from_chars(&v, 5, v.len());
        assert(rest@ =~= trim(line@).skip(5));
        let d = trim_str(rest.as_str());
        let dv = chars_of(d.as_str());
        if dv.len() == 6 && dv[0] == '[' && dv[1] == 'D' && dv[2] == 'O' && dv[3] == 'N' && dv[4] == 'E'
            && dv[5] == ']' {
            assert(dv@ =~= done_marker());
            SseLine::Done
        } else {
            assert(d@ != done_marker());
            SseLine::Data(d)
        }
    } else {
        proof {
            if v@.len() >= 5 {
                let p = v@.take(5);
                assert(p[0] == v@[0] && p[1] == v@[1] && p[2] == v@[2] && p[3] == v@[3] && p[4] == v@[4]);
            }
        }
        SseLine::Skip
    }
}

/// The text of `choices[0].delta.content` in a streamed completion chunk.
pub open spec fn delta_text(v: JsonView) -> Option<Seq<char>> {
    let choices = json_field(v, seq!['c', 'h', 'o', 'i', 'c', 'e', 's']);
    let delta = json_field(json_item(choices, 0), seq!['d', 'e', 'l', 't', 'a']);
    json_text(json_field(delta, seq!['c', 'o', 'n', 't', 'e', 'n', 't']))
}

/// The reply text that one completion chunk carries: the string at
/// `choices[0].delta.content`, or `None` where there is none.
pub fn delta_content(chunk: &Json) -> (r: Option<String>)
    ensures
        match r {
            Some(s) => delta_text(json_view(*chunk)) == Some(s@),
            None => delta_text(json_view(*chunk)) is None,
        },
{
    proof {
        reveal_strlit("choices");
        reveal_strlit("delta");
        reveal_strlit("content");
        assert("choices"@ =~= seq!['c', 'h', 'o', 'i', 'c', 'e', 's']);
        assert("delta"@ =~= seq!['d', 'e', 'l', 't', 'a']);
        assert("content"@ =~= seq!['c', 'o', 'n', 't', 'e', 'n', 't']);
    }
    let choices = match field(chunk, "choices") {
        Some(c) => c,
        None => return None,
    };
    let first = match item(choices, 0) {
        Some(c) => c,
        None => return None,
    };
    let delta = match field(first, "delta") {
        Some(d) => d,
        None => return None,
    };
    match field(delta, "content") {
        Some(Json::Str(s)) => Some(s.clone()),
        _ => None,
    }
}

/// A complete line of the stream: it ends with the newline byte and holds
/// no other.
pub open spec fn is_line(l: Seq<u8>) -> bool {
    &&& l.len() > 0
    &&& l.last() == NEWLINE
    &&& forall|i: int| 0 <= i < l.len() - 1 ==> l[i] != NEWLINE
}

/// The lines joined back into one byte sequence.
pub open spec fn join(lines: Seq<Seq<u8>>) -> Seq<u8>
    decreases lines.len(),
{
    if lines.len() == 0 {
        Seq::empty()
    } else {
        lines[0] + join(lines.drop_first())
    }
}

/// Whether `b` holds a newline byte.
pub open spec fn has_newline(b: Seq<u8>) -> bool {
    exists|i: int| 0 <= i < b.len() && b[i] == NEWLINE
}

/// The position of the first newline byte of `b` (meaningful when it has one).
pub open spec fn first_newline(b: Seq<u8>) -> int {
    choose|i: int| 0 <= i < b.len() && b[i] == NEWLINE && forall|j: int| 0 <= j < i ==> b[j] != NEWLINE
}

/// The complete lines of a byte stream, in order; what follows the last
/// newline is not among them.
#[verifier::opaque]
pub open spec fn complete_lines(b: Seq<u8>) -> Seq<Seq<u8>>
    decreases b.len(),
{
    if has_newline(b) {
        let i = first_newline(b);
        if 0 <= i < b.len() {
            seq![b.take(i + 1)] + complete_lines(b.skip(i + 1))
        } else {
            Seq::empty()
        }
    } else {
        Seq::empty()
    }
}

/// A stream that starts with a complete line splits into that line and the
/// lines of the rest.
proof fn lemma_complete_lines_cons(l: Seq<u8>, rest: Seq<u8>)
    requires
        is_line(l),
    ensures
        complete_lines(l + rest) == seq![l] + complete_lines(rest),
{
    reveal(complete_lines);
    let b = l + rest;
    let k = l.len() - 1;
    assert(b[k] == NEWLINE);
    assert(forall|j: int| 0 <= j < k ==> b[j] == l[j]);
    assert(has_newline(b));
    let i = first_newline(b);
    assert(0 <= i < b.len() && b[i] == NEWLINE && forall|j: int| 0 <= j < i ==> b[j] != NEWLINE);
    if i < k {
        assert(b[i] == l[i]);
    }
    assert(i == k);
    assert(b.take(i + 1) =~= l);
    assert(b.skip(i + 1) =~= rest);
}

/// A stream without a newline has no complete line.
proof fn lemma_complete_lines_none(b: Seq<u8>)
    requires
        !has_newline(b),
    ensures
        complete_lines(b) == Seq::<Seq<u8>>::empty(),
{
    reveal(complete_lines);
}

/// Joining complete lines in front of a stream puts them in front of its lines.
proof fn lemma_complete_lines_join(lines: Seq<Seq<u8>>, rest: Seq<u8>)
    requires
        forall|i: int| 0 <= i < lines.len() ==> is_line(#[trigger] lines[i]),
    ensures
        complete_lines(join(lines) + rest) == lines + complete_lines(rest),
    decreases lines.len(),
{
    if lines.len() == 0 {
        assert(join(lines) + rest =~= rest);
        assert(lines + complete_lines(rest) =~= complete_lines(rest));
    } else {
        let tail = lines.drop_first();
        assert forall|i: int| 0 <= i < tail.len() implies is_line(#[trigger] tail[i]) by {
            assert(tail[i] == lines[i + 1]);
        }
        lemma_complete_lines_join(tail, rest);
        assert(is_line(lines[0]));
        lemma_complete_lines_cons(lines[0], join(tail) + rest);
        assert(join(lines) + rest =~= lines[0] + (join(tail) + rest));
        assert(lines + complete_lines(rest) =~= seq![lines[0]] + (tail + complete_lines(rest)));
    }
}

/// Appending a line at the end of the joined lines.
proof fn lemma_join_push(lines: Seq<Seq<u8>>, l: Seq<u8>)
    ensures
        join(lines.push(l)) == join(lines) + l,
    decreases lines.len(),
{
    if lines.len() == 0 {
        let one = lines.push(l);
        assert(one.drop_first() =~= Seq::<Seq<u8>>::empty());
        assert(join(one.drop_first()) == Seq::<u8>::empty());
        assert(one[0] == l);
        assert(join(one) == l + join(one.drop_first()));
        assert(join(one) =~= l);
        assert(join(lines) == Seq::<u8>::empty());
        assert(join(lines) + l =~= l);
    } else {
        lemma_join_push(lines.drop_first(), l);
        assert(lines.push(l).drop_first() =~= lines.drop_first().push(l));
        assert(join(lines.push(l)) =~= join(lines) + l);
    }
}

/// The text of an optional string.
pub open spec fn opt_text(t: Option<String>) -> Option<Seq<char>> {
    match t {
        Some(s) => Some(s@),
        None => None,
    }
}

/// The text, or nothing.
pub open spec fn delta_or_empty(t: Option<Seq<char>>) -> Seq<char> {
    match t {
        Some(s) => s,
        None => Seq::empty(),
    }
}

/// The reply text that a complete line of the stream carries: for a data
/// line whose payload is JSON, the delta text of that chunk.
pub open spec fn line_delta(l: Seq<u8>) -> Option<Seq<char>> {
    match classify_sse_line(lossy_utf8(l)) {
        SseLineView::Data(d) => match parsed_json(d) {
            Some(v) => delta_text(v),
            None => None,
        },
        _ => None,
    }
}

/// The reply that `lines` carry: their delta texts, in order.
pub open spec fn reply_of(lines: Seq<Seq<u8>>) -> Seq<char>
    decreases lines.len(),
{
    if lines.len() == 0 {
        Seq::empty()
    } else {
        reply_of(lines.drop_last()) + delta_or_empty(line_delta(lines.last()))
    }
}

/// What a line of bytes carries: its text (invalid UTF-8 replaced),
/// classified.
pub fn classify_bytes(bytes: &[u8]) -> (e: SseLine)
    ensures
        e@ == classify_sse_line(lossy_utf8(bytes@)),
        vstd::utf8::valid_utf8(bytes@) ==> e@ == classify_sse_line(vstd::utf8::decode_utf8(bytes@)),
{
    let text = lossy_text(bytes);
    let line = trim_str(text.as_str());
    let e = parse_sse_line(line.as_str());
    proof {
        lemma_classify_trimmed(text@);
    }
    e
}

/// Reassembles the streamed reply: bytes arrive in chunks of any size, are
/// cut into lines at each newline, and the text of each completion chunk is
/// appended to the reply.
pub struct StreamDecoder {
    buf: Vec<u8>,
    reply: String,
    fed: Ghost<Seq<u8>>,
    lines: Ghost<Seq<Seq<u8>>>,
}

impl StreamDecoder {
    /// Every byte fed so far.
    pub closed spec fn fed(&self) -> Seq<u8> {
        self.fed@
    }

    /// The lines taken out so far, in order.
    pub closed spec fn lines(&self) -> Seq<Seq<u8>> {
        self.lines@
    }

    /// The bytes fed but not yet taken out as a line.
    pub closed spec fn buffered(&self) -> Seq<u8> {
        self.buf@
    }

    /// The reply assembled so far.
    pub closed spec fn reply_text(&self) -> Seq<char> {
        self.reply@
    }

    /// The lines taken out, followed by the buffered bytes, are the bytes fed;
    /// each line taken out is a complete line.
    pub closed spec fn wf(&self) -> bool {
        &&& join(self.lines@) + self.buf@ == self.fed@
        &&& forall|i: int| 0 <= i < self.lines@.len() ==> is_line(#[trigger] self.lines@[i])
    }

    /// A decoder that has seen nothing.
    pub fn new() -> (d: StreamDecoder)
        ensures
            d.wf(),
            d.fed() == Seq::<u8>::empty(),
            d.lines() == Seq::<Seq<u8>>::empty(),
            d.buffered() == Seq::<u8>::empty(),
            d.reply_text() == Seq::<char>::empty(),
            d.reply_text() == reply_of(d.lines()),
    {
        let d = StreamDecoder { buf: Vec::new(), reply: String::new(), fed: Ghost(Seq::empty()), lines: Ghost(Seq::empty()) };
        assert(join(d.lines@) + d.buf@ =~= d.fed@);
        d
    }

    /// Takes in the next chunk of the stream.
    pub fn feed(&mut self, chunk: &[u8])
        requires
            old(self).wf(),
        ensures
            final(self).wf(),
            final(self).fed() == old(self).fed() + chunk@,
            final(self).buffered() == old(self).buffered() + chunk@,
            final(self).lines() == old(self).lines(),
            final(self).reply_text() == old(self).reply_text(),
    {
        let ghost old_buf = self.buf@;
        let ghost old_fed = self.fed@;
        let ghost old_lines = self.lines@;
        let mut i: usize = 0;
        while i < chunk.len()
            invariant
                i <= chunk.len(),
                self.fed@ == old_fed,
                self.lines@ == old_lines,
                self.reply == old(self).reply,
                join(old_lines) + old_buf == old_fed,
                forall|k: int| 0 <= k < old_lines.len() ==> is_line(#[trigger] old_lines[k]),
                self.buf@ == old_buf + chunk@.take(i as int),
            decreases chunk.len() - i,
        {
            self.buf.push(chunk[i]);
            assert(old_buf + chunk@.take(i + 1) =~= (old_buf + chunk@.take(i as int)).push(chunk@[i as int]));
            i = i + 1;
        }
        assert(chunk@.take(i as int) =~= chunk@);
        proof {
            self.fed@ = self.fed@ + chunk@;
            assert(join(self.lines@) + self.buf@ =~= self.fed@);
        }
    }

    /// Takes out the next complete line, newline included; `None` when the
    /// buffered bytes hold no newline.
    pub fn next_line(&mut self) -> (r: Option<Vec<u8>>)
        requires
            old(self).wf(),
        ensures
            final(self).wf(),
            final(self).fed() == old(self).fed(),
            final(self).reply_text() == old(self).reply_text(),
            match r {
                Some(l) => {
                    &&& is_line(l@)
                    &&& old(self).buffered() == l@ + final(self).buffered()
                    &&& final(self).lines() == old(self).lines().push(l@)
                },
                None => {
                    &&& !has_newline(old(self).buffered())
                    &&& final(self).buffered() == old(self).buffered()
                    &&& final(self).lines() == old(self).lines()
                },
            },
    {
        let n = self.buf.len();
        let mut pos: usize = 0;
        while pos < n && self.buf[pos] != NEWLINE
            invariant
                pos <= n == self.buf.len(),
                forall|j: int| 0 <= j < pos ==> self.buf@[j] != NEWLINE,
            decreases n - pos,
        {
            pos = pos + 1;
        }
        if pos == n {
            return None;
        }
        let ghost old_buf = self.buf@;
        let mut line = self.buf.split_off(pos + 1);
        core::mem::swap(&mut line, &mut self.buf);
        proof {
            assert(line@ =~= old_buf.take(pos + 1));
            assert(old_buf =~= line@ + self.buf@);
            lemma_join_push(self.lines@, line@);
            self.lines@ = self.lines@.push(line@);
            assert(join(self.lines@) + self.buf@ =~= self.fed@);
            assert forall|i: int| 0 <= i < self.lines@.len() implies is_line(#[trigger] self.lines@[i]) by {
                if i == self.lines@.len() - 1 {
                    assert(self.lines@[i] == line@);
                }
            }
        }
        Some(line)
    }

    /// Takes out the next complete line and classifies its text (the bytes
    /// read as UTF-8, invalid sequences replaced).
    pub fn next_event(&mut self) -> (r: Option<SseLine>)
        requires
            old(self).wf(),
        ensures
            final(self).wf(),
            final(self).fed() == old(self).fed(),
            final(self).reply_text() == old(self).reply_text(),
            match r {
                Some(e) => exists|l: Seq<u8>|
                    {
                        &&& is_line(l)
                        &&& old(self).buffered() == l + final(self).buffered()
                        &&& final(self).lines() == old(self).lines().push(l)
                        &&& e@ == classify_sse_line(lossy_utf8(l))
                        &&& vstd::utf8::valid_utf8(l) ==> e@ == classify_sse_line(vstd::utf8::decode_utf8(l))
                    },
                None => {
                    &&& !has_newline(old(self).buffered())
                    &&& final(self).buffered() == old(self).buffered()
                    &&& final(self).lines() == old(self).lines()
                },
            },
    {
        match self.next_line() {
            None => None,
            Some(bytes) => Some(classify_bytes(bytes.as_slice())),
        }
    }

    /// Takes out the next complete line and appends the reply text it
    /// carries: the delta text of the JSON chunk of a data line. `None` when
    /// the buffered bytes hold no newline; `Some(None)` for a line that
    /// carries no reply text.
    pub fn next_delta(&mut self) -> (r: Option<Option<String>>)
        requires
            old(self).wf(),
        ensures
            final(self).wf(),
            final(self).fed() == old(self).fed(),
            old(self).reply_text() == reply_of(old(self).lines()) ==> final(self).reply_text() == reply_of(final(self).lines()),
            match r {
                Some(d) => exists|l: Seq<u8>|
                    {
                        &&& is_line(l)
                        &&& old(self).buffered() == l + final(self).buffered()
                        &&& final(self).lines() == old(self).lines().push(l)
                        &&& opt_text(d) == line_delta(l)
                        &&& final(self).reply_text() == old(self).reply_text() + delta_or_empty(line_delta(l))
                    },
                None => {
                    &&& !has_newline(old(self).buffered())
                    &&& final(self).buffered() == old(self).buffered()
                    &&& final(self).lines() == old(self).lines()
                    &&& final(self).reply_text() == old(self).reply_text()
                },
            },
    {
        match self.next_line() {
            None => None,
            Some(bytes) => {
                let e = classify_bytes(bytes.as_slice());
                proof {
                    lemma_reply_of_push(old(self).lines(), bytes@);
                }
                match e {
                    SseLine::Data(data) => {
                        let j = parse_json(data.as_str());
                        let t = match &j {
                            Some(v) => self.accept(Some(v)),
                            None => self.accept(None),
                        };
                        assert(opt_text(t) == line_delta(bytes@));
                        Some(t)
                    },
                    _ => {
                        assert(line_delta(bytes@) is None);
                        assert(self.reply@ =~= self.reply@ + delta_or_empty(line_delta(bytes@)));
                        Some(None)
                    },
                }
            },
        }
    }

    /// Takes the completion chunk decoded from a data line (`None` where the
    /// payload was not JSON) and appends its reply text, which it returns.
    fn accept(&mut self, chunk: Option<&Json>) -> (r: Option<String>)
        requires
            old(self).wf(),
        ensures
            final(self).wf(),
            final(self).fed() == old(self).fed(),
            final(self).lines() == old(self).lines(),
            final(self).buffered() == old(self).buffered(),
            match chunk {
                None => r is None,
                Some(j) => match r {
                    Some(t) => delta_text(json_view(*j)) == Some(t@),
                    None => delta_text(json_view(*j)) is None,
                },
            },
            match r {
                Some(t) => final(self).reply_text() == old(self).reply_text() + t@,
                None => final(self).reply_text() == old(self).reply_text(),
            },
    {
        match chunk {
            None => None,
            Some(j) => match delta_content(j) {
                None => None,
                Some(t) => {
                    self.reply.append(t.as_str());
                    Some(t)
                },
            },
        }
    }

    /// The reply assembled so far.
    pub fn reply(&self) -> (r: &String)
        ensures
            r@ == self.reply_text(),
    {
        &self.reply
    }
}

/// The reply that a whole response body carries, received in `chunks`: each
/// chunk is fed in turn and every complete line taken out with `next_delta`.
/// It is the delta text of every complete line of the body, in order, so it
/// depends only on the bytes of the body, not on where the chunks are cut.
pub fn reply_from_chunks(chunks: &Vec<Vec<u8>>) -> (r: String)
    ensures
        r@ == reply_of(complete_lines(join(chunks@.map_values(|c: Vec<u8>| c@)))),
{
    let ghost body = chunks@.map_values(|c: Vec<u8>| c@);
    let mut d = StreamDecoder::new();
    let mut i: usize = 0;
    assert(join(body.take(0)) =~= Seq::<u8>::empty()) by {
        assert(body.take(0) =~= Seq::<Seq<u8>>::empty());
    }
    while i < chunks.len()
        invariant
            i <= chunks.len(),
            body == chunks@.map_values(|c: Vec<u8>| c@),
            d.wf(),
            d.fed() == join(body.take(i as int)),
            d.reply_text() == reply_of(d.lines()),
            !has_newline(d.buffered()),
        decreases chunks.len() - i,
    {
        d.feed(chunks[i].as_slice());
        proof {
            lemma_join_push(body.take(i as int), body[i as int]);
            assert(body.take(i + 1) =~= body.take(i as int).push(body[i as int]));
        }
        loop
            invariant
                d.wf(),
                d.fed() == join(body.take(i + 1)),
                d.reply_text() == reply_of(d.lines()),
            ensures
                d.wf(),
                d.fed() == join(body.take(i + 1)),
                d.reply_text() == reply_of(d.lines()),
                !has_newline(d.buffered()),
            decreases d.buffered().len(),
        {
            match d.next_delta() {
                Some(_) => {},
                None => break,
            }
        }
        i = i + 1;
    }
    proof {
        assert(body.take(i as int) =~= body);
        lemma_reply_of_stream(&d);
    }
    d.reply().clone()
}

/// The lines a decoder has taken out, followed by the complete lines still
/// buffered, are the complete lines of everything fed to it: how the stream
/// was cut into chunks makes no difference.
pub proof fn lemma_decoder_lines(d: &StreamDecoder)
    requires
        d.wf(),
    ensures
        d.lines() + complete_lines(d.buffered()) == complete_lines(d.fed()),
        !has_newline(d.buffered()) ==> d.lines() == complete_lines(d.fed()),
{
    lemma_complete_lines_join(d.lines(), d.buffered());
    if !has_newline(d.buffered()) {
        lemma_complete_lines_none(d.buffered());
        assert(d.lines() + Seq::<Seq<u8>>::empty() =~= d.lines());
    }
}

/// The reply a decoder has assembled, when every line was taken out with
/// `next_delta`, is the delta text of every line of the stream in order; once
/// the buffered bytes hold no newline it depends only on the bytes fed, not on
/// how they were cut into chunks.
pub proof fn lemma_reply_of_stream(d: &StreamDecoder)
    requires
        d.wf(),
        d.reply_text() == reply_of(d.lines()),
    ensures
        !has_newline(d.buffered()) ==> d.reply_text() == reply_of(complete_lines(d.fed())),
{
    lemma_decoder_lines(d);
}

/// Taking out one more line with `next_delta` keeps the reply equal to the
/// delta text of the lines taken out.
pub proof fn lemma_reply_of_push(lines: Seq<Seq<u8>>, l: Seq<u8>)
    ensures
        reply_of(lines.push(l)) == reply_of(lines) + delta_or_empty(line_delta(l)),
{
    assert(lines.push(l).drop_last() =~= lines);
}

/// Two decoders fed the same bytes, cut into chunks in any two ways (inside a
/// line or inside a multi-byte character too), with every complete line
/// taken out with `next_delta`, have assembled the same reply.
pub proof fn lemma_reply_chunking(d1: &StreamDecoder, d2: &StreamDecoder)
    requires
        d1.wf(),
        d2.wf(),
        d1.reply_text() == reply_of(d1.lines()),
        d2.reply_text() == reply_of(d2.lines()),
        d1.fed() == d2.fed(),
        !has_newline(d1.buffered()),
        !has_newline(d2.buffered()),
    ensures
        d1.reply_text() == d2.reply_text(),
{
    lemma_reply_of_stream(d1);
    lemma_reply_of_stream(d2);
}

/// The reply text of a completion chunk is the string at
/// `choices[0].delta.content`, character for character: for any object whose
/// `choices` member (the first so named, whatever members come before or
/// after it) is an array whose first item has a `delta` object whose
/// `content` member is the string `t`, the text is `t`.
pub proof fn lemma_delta_text_of_chunk(
    t: Seq<char>,
    top_pre: Seq<(Seq<char>, JsonView)>,
    top_post: Seq<(Seq<char>, JsonView)>,
    choice_pre: Seq<(Seq<char>, JsonView)>,
    choice_post: Seq<(Seq<char>, JsonView)>,
    delta_pre: Seq<(Seq<char>, JsonView)>,
    delta_post: Seq<(Seq<char>, JsonView)>,
    more_choices: Seq<JsonView>,
)
    requires
        forall|k: int| 0 <= k < top_pre.len() ==> (#[trigger] top_pre[k]).0 != "choices"@,
        forall|k: int| 0 <= k < choice_pre.len() ==> (#[trigger] choice_pre[k]).0 != "delta"@,
        forall|k: int| 0 <= k < delta_pre.len() ==> (#[trigger] delta_pre[k]).0 != "content"@,
    ensures
        delta_text(
            JsonView::Object(
                top_pre + seq![(
                    "choices"@,
                    JsonView::Array(
                        seq![JsonView::Object(
                            choice_pre + seq![(
                                "delta"@,
                                JsonView::Object(delta_pre + seq![("content"@, JsonView::Str(t))] + delta_post),
                            )] + choice_post,
                        )] + more_choices,
                    ),
                )] + top_post,
            ),
        ) == Some(t),
{
    reveal_strlit("choices");
    reveal_strlit("delta");
    reveal_strlit("content");
    assert("choices"@ =~= seq!['c', 'h', 'o', 'i', 'c', 'e', 's']);
    assert("delta"@ =~= seq!['d', 'e', 'l', 't', 'a']);
    assert("content"@ =~= seq!['c', 'o', 'n', 't', 'e', 'n', 't']);
    let d = JsonView::Object(delta_pre + seq![("content"@, JsonView::Str(t))] + delta_post);
    let c = JsonView::Object(choice_pre + seq![("delta"@, d)] + choice_post);
    let arr = JsonView::Array(seq![c] + more_choices);
    lemma_member_first(delta_pre, "content"@, JsonView::Str(t), delta_post);
    lemma_member_first(choice_pre, "delta"@, d, choice_post);
    lemma_member_first(top_pre, "choices"@, arr, top_post);
    assert((seq![c] + more_choices)[0] == c);
}

/// Every complete line whose text is a data line with a JSON payload carries
/// exactly the reply text of that chunk, whatever the line's length; every
/// other line carries none.
pub proof fn lemma_line_delta_of_data(l: Seq<u8>, d: Seq<char>, v: JsonView)
    ensures
        classify_sse_line(lossy_utf8(l)) == SseLineView::Data(d) && parsed_json(d) == Some(v) ==> line_delta(l) == delta_text(v),
        classify_sse_line(lossy_utf8(l)) == SseLineView::Data(d) && parsed_json(d) is None ==> line_delta(l) is None,
        !(classify_sse_line(lossy_utf8(l)) is Data) ==> line_delta(l) is None,
{
}

} // verus!
