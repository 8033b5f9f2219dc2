//! Talking to the server: its stream of events, its answers, and what is shown of them.
use crate::reporter;
use crate::text;
use crate::text::{append_num, chars_of, same, trimmed, utf8_text};
use vstd::prelude::*;
use vstd::string::*;
use vstd::utf8::*;

verus! {

/// What a server says of itself.
#[derive(Debug)]
pub struct DaemonInfo {
    pub version: String,
    pub api_version: u32,
}

/// Where the server is.
pub fn base_url(port: u16) -> (r: String)
    ensures
        r@ == "http://127.0.0.1:"@ + text::dec(port as nat),
{
    let mut r: String = "http://127.0.0.1:".to_owned();
    append_num(&mut r, port as u64);
    r
}

/// What is told where the server is of another version.
pub fn version_note(own: &str, d: &DaemonInfo) -> (r: Option<String>)
    ensures
        reporter::opt_text(r) == (if d.version@ == own@ {
            None
        } else {
            Some(
                "note: this CLI is v"@ + own@ + " but the daemon is v"@ + d.version@ + " (API v"@
                    + text::dec(d.api_version as nat) + ") — they may disagree on behaviour"@,
            )
        }),
{
    if same(d.version.as_str(), own) {
        return None;
    }
    let mut m: String = "note: this CLI is v".to_owned();
    m.append(own);
    m.append(" but the daemon is v");
    m.append(d.version.as_str());
    m.append(" (API v");
    append_num(&mut m, d.api_version as u64);
    m.append(") — they may disagree on behaviour");
    Some(m)
}

// ── The stream of events ─────────────────────────────────────────────────────

/// The lines that are complete once some bytes follow what is left of an unfinished one,
/// and what is then left.
pub open spec fn feed(left: Seq<u8>, bytes: Seq<u8>) -> (Seq<Seq<u8>>, Seq<u8>)
    decreases bytes.len(),
{
    if bytes.len() == 0 {
        (Seq::empty(), left)
    } else {
        let before = feed(left, bytes.drop_last());
        if bytes.last() == 10 {
            (before.0.push(before.1), Seq::empty())
        } else {
            (before.0, before.1.push(bytes.last()))
        }
    }
}

pub open spec fn without_cr(line: Seq<u8>) -> Seq<u8> {
    if line.len() > 0 && line.last() == 13 {
        line.drop_last()
    } else {
        line
    }
}

/// The data in a line: what stands behind `data:` and at most one space. Other lines, and
/// those that are no text, hold none.
pub open spec fn data_in(line: Seq<u8>) -> Option<Seq<char>> {
    let l = without_cr(line);
    if !valid_utf8(l) || !text::starts_with(decode_utf8(l), "data:"@) {
        None
    } else {
        let rest = decode_utf8(l).skip("data:"@.len() as int);
        if rest.len() > 0 && rest[0] == ' ' {
            Some(rest.skip(1))
        } else {
            Some(rest)
        }
    }
}

/// The data in some lines.
pub open spec fn payloads(lines: Seq<Seq<u8>>) -> Seq<Seq<char>>
    decreases lines.len(),
{
    if lines.len() == 0 {
        Seq::empty()
    } else {
        let front = payloads(lines.drop_last());
        match data_in(lines.last()) {
            Some(d) => front.push(d),
            None => front,
        }
    }
}

/// Takes a stream of events apart, in whatever pieces it comes.
pub struct SseDecoder {
    pub buf: Vec<u8>,
}

fn read_data(line: &[u8]) -> (r: Option<String>)
    ensures
        reporter::opt_text(r) == data_in(line@),
{
    let n: usize = if line.len() > 0 && line[line.len() - 1] == 13 {
        line.len() - 1
    } else {
        line.len()
    };
    let mut l: Vec<u8> = Vec::new();
    let mut i: usize = 0;
    while i < n
        invariant
            i <= n <= line.len(),
            l@ == line@.take(i as int),
        decreases n - i,
    {
        l.push(line[i]);
        i += 1;
        assert(l@ =~= line@.take(i as int));
    }
    assert(l@ =~= without_cr(line@));
    let t: String = match utf8_text(&l) {
        Some(t) => t,
        None => return None,
    };
    let chars: Vec<char> = chars_of(t.as_str());
    let label: Vec<char> = chars_of("data:");
    if !text::has_prefix(&chars, &label) {
        return None;
    }
    let mut from: usize = label.len();
    let ghost rest = chars@.skip(label@.len() as int);
    if from < chars.len() && chars[from] == ' ' {
        assert(rest[0] == ' ');
        from += 1;
        let out: Vec<char> = text::slice(&chars, from, chars.len());
        assert(out@ =~= rest.skip(1));
        Some(text::string_of(&out))
    } else {
        let out: Vec<char> = text::slice(&chars, from, chars.len());
        assert(out@ =~= rest);
        Some(text::string_of(&out))
    }
}

impl SseDecoder {
    pub fn new() -> (d: Self)
        ensures
            d.buf@.len() == 0,
    {
        SseDecoder { buf: Vec::new() }
    }

    /// Takes the next piece, and gives the data that is complete with it.
    pub fn push(&mut self, bytes: &[u8]) -> (out: Vec<String>)
        ensures
            text::texts(out@) == payloads(feed(old(self).buf@, bytes@).0),
            final(self).buf@ == feed(old(self).buf@, bytes@).1,
    {
        let mut out: Vec<String> = Vec::new();
        let ghost left = self.buf@;
        let mut i: usize = 0;
        proof {
            assert(bytes@.take(0) =~= Seq::empty());
            assert(text::texts(out@) =~= Seq::empty());
        }
        while i < bytes.len()
            invariant
                i <= bytes.len(),
                self.buf@ == feed(left, bytes@.take(i as int)).1,
                text::texts(out@) == payloads(feed(left, bytes@.take(i as int)).0),
            decreases bytes.len() - i,
        {
            let b: u8 = bytes[i];
            let ghost before = feed(left, bytes@.take(i as int));
            proof {
                let t = bytes@.take(i + 1);
                assert(t.drop_last() =~= bytes@.take(i as int));
                assert(t.last() == b);
            }
            if b == 10 {
                let ghost had = text::texts(out@);
                let ghost lines = before.0.push(before.1);
                assert(lines.drop_last() =~= before.0);
                match read_data(&self.buf) {
                    Some(d) => {
                        out.push(d);
                        assert(text::texts(out@) =~= had.push(d@));
                    },
                    None => {},
                }
                self.buf.clear();
            } else {
                self.buf.push(b);
            }
            i += 1;
        }
        assert(bytes@.take(i as int) =~= bytes@);
        out
    }
}

proof fn lemma_payloads_add(a: Seq<Seq<u8>>, b: Seq<Seq<u8>>)
    ensures
        payloads(a + b) == payloads(a) + payloads(b),
    decreases b.len(),
{
    if b.len() == 0 {
        assert(a + b =~= a);
        assert(payloads(a) + payloads(b) =~= payloads(a));
    } else {
        lemma_payloads_add(a, b.drop_last());
        assert((a + b).drop_last() =~= a + b.drop_last());
        assert((a + b).last() == b.last());
        match data_in(b.last()) {
            Some(d) => {
                assert((payloads(a) + payloads(b.drop_last())).push(d) =~= payloads(a) + payloads(
                    b.drop_last(),
                ).push(d));
            },
            None => {},
        }
    }
}

proof fn lemma_feed_add(left: Seq<u8>, a: Seq<u8>, b: Seq<u8>)
    ensures
        feed(left, a + b).0 == feed(left, a).0 + feed(feed(left, a).1, b).0,
        feed(left, a + b).1 == feed(feed(left, a).1, b).1,
    decreases b.len(),
{
    if b.len() == 0 {
        assert(a + b =~= a);
        assert(feed(left, a).0 + Seq::<Seq<u8>>::empty() =~= feed(left, a).0);
    } else {
        lemma_feed_add(left, a, b.drop_last());
        assert((a + b).drop_last() =~= a + b.drop_last());
        assert((a + b).last() == b.last());
        let x = feed(left, a).0;
        let y = feed(feed(left, a).1, b.drop_last());
        assert((x + y.0).push(y.1) =~= x + y.0.push(y.1));
    }
}

/// It does not matter in which pieces the stream comes: two pieces give the same data as
/// both in one, even where the cut goes through a line or a character.
pub proof fn law_pieces_do_not_matter(left: Seq<u8>, a: Seq<u8>, b: Seq<u8>)
    ensures
        payloads(feed(left, a + b).0) == payloads(feed(left, a).0) + payloads(
            feed(feed(left, a).1, b).0,
        ),
        feed(left, a + b).1 == feed(feed(left, a).1, b).1,
{
    lemma_feed_add(left, a, b);
    lemma_payloads_add(feed(left, a).0, feed(feed(left, a).1, b).0);
}

// ── The end of a job ─────────────────────────────────────────────────────────

/// An event of the stream.
#[derive(Debug)]
pub struct StreamEvent {
    pub kind: String,
    pub message: String,
    pub value: Option<u64>,
    pub total: Option<u64>,
}

/// How a job ended.
#[derive(Debug)]
pub enum JobEnd {
    Finished,
    Failed(String),
}

/// How a job ended, if an event says so.
pub fn end_of(ev: &StreamEvent) -> (r: Option<JobEnd>)
    ensures
        match r {
            Some(JobEnd::Finished) => ev.kind@ == "done"@,
            Some(JobEnd::Failed(m)) => ev.kind@ != "done"@ && ev.kind@ == "error"@ && m@ == (
            if ev.message@.len() == 0 {
                "job failed"@
            } else {
                ev.message@
            }),
            None => ev.kind@ != "done"@ && ev.kind@ != "error"@,
        },
{
    if same(ev.kind.as_str(), "done") {
        Some(JobEnd::Finished)
    } else if same(ev.kind.as_str(), "error") {
        if ev.message.as_str().is_empty() {
            Some(JobEnd::Failed("job failed".to_owned()))
        } else {
            Some(JobEnd::Failed(ev.message.clone()))
        }
    } else {
        None
    }
}

/// What is drawn for an event.
#[derive(Debug)]
pub enum Drawing {
    /// A line, above the bar if there is one.
    Line(String),
    /// A bar of a length, at a place, with a text if there is a new one.
    Bar { length: u64, position: u64, message: Option<String> },
    /// The bar goes, and a line is written if there is one.
    End(Option<String>),
    /// The same, but the line is an error.
    Fail(Option<String>),
    Nothing,
}

pub open spec fn unless_empty(s: Seq<char>) -> Option<Seq<char>> {
    if s.len() == 0 {
        None
    } else {
        Some(s)
    }
}

fn some_text(s: &String) -> (r: Option<String>)
    ensures
        reporter::opt_text(r) == unless_empty(s@),
{
    if s.as_str().is_empty() {
        None
    } else {
        Some(s.clone())
    }
}

/// Whether an event moves the bar.
pub open spec fn moves_bar(ev: StreamEvent) -> bool {
    ev.total is Some && ev.value is Some && ev.total->0 > 0
}

/// What is drawn for an event.
pub fn draw(ev: &StreamEvent) -> (d: Drawing)
    ensures
        match d {
            Drawing::Line(m) => ev.kind@ == "log"@ && m@ == ev.message@,
            Drawing::Bar { length, position, message } => ev.kind@ == "progress"@ && moves_bar(*ev)
                && length == ev.total->0 && position == ev.value->0 && reporter::opt_text(message)
                == unless_empty(ev.message@),
            Drawing::End(m) => ev.kind@ == "done"@ && reporter::opt_text(m) == unless_empty(
                ev.message@,
            ),
            Drawing::Fail(m) => ev.kind@ == "error"@ && reporter::opt_text(m) == unless_empty(
                ev.message@,
            ),
            Drawing::Nothing => ev.kind@ != "log"@ && ev.kind@ != "done"@ && ev.kind@ != "error"@
                && (ev.kind@ == "progress"@ ==> !moves_bar(*ev)),
        },
{
    let k: &str = ev.kind.as_str();
    if same(k, "log") {
        Drawing::Line(ev.message.clone())
    } else if same(k, "progress") {
        proof {
            reveal_strlit("progress");
            reveal_strlit("done");
            reveal_strlit("error");
            reveal_strlit("log");
            assert("progress"@.len() == 8 && "done"@.len() == 4 && "error"@.len() == 5);
        }
        match (ev.total, ev.value) {
            (Some(total), Some(value)) => if total > 0 {
                Drawing::Bar { length: total, position: value, message: some_text(&ev.message) }
            } else {
                Drawing::Nothing
            },
            _ => Drawing::Nothing,
        }
    } else if same(k, "done") {
        Drawing::End(some_text(&ev.message))
    } else if same(k, "error") {
        Drawing::Fail(some_text(&ev.message))
    } else {
        Drawing::Nothing
    }
}

/// What the server says of a job when its stream broke off.
pub enum JobReply {
    Known { status: String, error: Option<String> },
    /// The answer could not be read, for this reason.
    Unreadable(String),
    /// There was no answer.
    Lost,
}

/// Decides how a job ended whose stream broke off. Only a job that is known to be done
/// counts as done.
pub fn settle(job_id: &str, reply: &JobReply, stream_error: Option<&str>) -> (r: Result<
    (),
    String,
>)
    ensures
        match r {
            Ok(_) => reply matches JobReply::Known { status, error } && status@ == "done"@,
            Err(m) => match *reply {
                JobReply::Known { status, error } => status@ != "done"@ && m@ == (if status@
                    == "error"@ {
                    match error {
                        Some(e) => e@,
                        None => "job failed"@,
                    }
                } else {
                    "lost the stream to job "@ + job_id@ + " (status: "@ + status@ + ")"@
                }),
                JobReply::Unreadable(e) => m@ == "could not read job status: "@ + e@,
                JobReply::Lost => m@ == (match stream_error {
                    Some(e) => "event stream failed: "@ + e@,
                    None => "lost contact with job "@ + job_id@,
                }),
            },
        },
{
    match reply {
        JobReply::Known { status, error } => {
            if same(status.as_str(), "done") {
                return Ok(());
            }
            if same(status.as_str(), "error") {
                return match error {
                    Some(e) => Err(e.clone()),
                    None => Err("job failed".to_owned()),
                };
            }
            let mut m: String = "lost the stream to job ".to_owned();
            m.append(job_id);
            m.append(" (status: ");
            m.append(status.as_str());
            m.append(")");
            Err(m)
        },
        JobReply::Unreadable(e) => {
            let mut m: String = "could not read job status: ".to_owned();
            m.append(e.as_str());
            Err(m)
        },
        JobReply::Lost => match stream_error {
            Some(e) => {
                let mut m: String = "event stream failed: ".to_owned();
                m.append(e);
                Err(m)
            },
            None => {
                let mut m: String = "lost contact with job ".to_owned();
                m.append(job_id);
                Err(m)
            },
        },
    }
}

/// What is told where the server does not take a job.
pub fn rejected(code: &str, body: &str) -> (m: String)
    ensures
        m@ == "daemon rejected the job ("@ + code@ + "): "@ + body@,
{
    let mut m: String = "daemon rejected the job (".to_owned();
    m.append(code);
    m.append("): ");
    m.append(body);
    m
}

// ── Answers to requests ──────────────────────────────────────────────────────

/// The text that serde_json reads under a name at the top of a JSON text; `None` where the
/// text is no JSON, or has no text there.
pub uninterp spec fn json_text_at(json: Seq<char>, name: Seq<char>) -> Option<Seq<char>>;

/// `serde_json::from_str` into a `Value`, `Value::get` with a name, and `Value::as_str`: a
/// function of the two texts alone.
#[verifier::external_body]
fn json_field(json: &str, name: &str) -> (r: Option<String>)
    ensures
        reporter::opt_text(r) == json_text_at(json@, name@),
{
    match serde_json::from_str::<serde_json::Value>(json) {
        Ok(v) => v.get(name).and_then(|m| m.as_str()).map(|s| s.to_owned()),
        Err(_) => None,
    }
}

/// Whether what is told of an answer is right: the message in it where there is one, else
/// the one given for success, if any; of a refusal, its status and its text.
pub open spec fn is_told(
    r: Result<Option<String>, String>,
    success: bool,
    status: Seq<char>,
    body: Seq<char>,
    message: Option<Seq<char>>,
    usual: Option<Seq<char>>,
) -> bool {
    match r {
        Ok(m) => success && reporter::opt_text(m) == (match message {
            Some(t) => Some(t),
            None => usual,
        }),
        Err(m) => !success && m@ == "daemon returned "@ + status + ": "@ + text::trim(body),
    }
}

/// What is told of an answer whose message is known.
pub fn tell_reply(
    success: bool,
    status: &str,
    body: &str,
    message: Option<String>,
    usual: Option<&str>,
) -> (r: Result<Option<String>, String>)
    ensures
        is_told(
            r,
            success,
            status@,
            body@,
            reporter::opt_text(message),
            match usual {
                Some(u) => Some(u@),
                None => None,
            },
        ),
{
    if !success {
        let mut m: String = "daemon returned ".to_owned();
        m.append(status);
        m.append(": ");
        let t: String = trimmed(body);
        m.append(t.as_str());
        return Err(m);
    }
    match message {
        Some(m) => Ok(Some(m)),
        None => match usual {
            Some(u) => Ok(Some(u.to_owned())),
            None => Ok(None),
        },
    }
}

/// What is told of an answer to a request.
pub fn mutation_reply(success: bool, status: &str, body: &str, usual: Option<&str>) -> (r: Result<
    Option<String>,
    String,
>)
    ensures
        is_told(
            r,
            success,
            status@,
            body@,
            json_text_at(body@, "message"@),
            match usual {
                Some(u) => Some(u@),
                None => None,
            },
        ),
{
    let message: Option<String> = json_field(body, "message");
    tell_reply(success, status, body, message, usual)
}

/// Whether an answer to a question on the terminal is yes.
pub fn is_yes(line: &str) -> (b: bool)
    ensures
        b == (text::trim(line@) == "y"@ || text::trim(line@) == "Y"@ || text::trim(line@) == "yes"@
            || text::trim(line@) == "Yes"@),
{
    let t: String = trimmed(line);
    let s: &str = t.as_str();
    same(s, "y") || same(s, "Y") || same(s, "yes") || same(s, "Yes")
}

// ── Laws of streams ──────────────────────────────────────────────────────────

/// A line is complete at its end mark, and what follows it is left for the next one.
pub proof fn law_lines_end_at_their_mark(line: Seq<u8>, rest: Seq<u8>)
    requires
        !line.contains(10u8),
        !rest.contains(10u8),
    ensures
        feed(Seq::empty(), line + seq![10u8] + rest) == (seq![line], rest),
        feed(Seq::empty(), line) == (Seq::<Seq<u8>>::empty(), line),
{
    let none = Seq::<u8>::empty();
    lemma_unfinished(none, line);
    assert(none + line =~= line);
    let l = line + seq![10u8];
    assert(l.drop_last() =~= line);
    assert(feed(none, l) == (Seq::<Seq<u8>>::empty().push(line), none));
    assert(Seq::<Seq<u8>>::empty().push(line) =~= seq![line]);
    lemma_feed_add(none, l, rest);
    lemma_unfinished(none, rest);
    assert(none + rest =~= rest);
    assert(seq![line] + Seq::<Seq<u8>>::empty() =~= seq![line]);
}

proof fn lemma_unfinished(left: Seq<u8>, bytes: Seq<u8>)
    requires
        !bytes.contains(10u8),
    ensures
        feed(left, bytes) == (Seq::<Seq<u8>>::empty(), left + bytes),
    decreases bytes.len(),
{
    if bytes.len() == 0 {
        assert(left + bytes =~= left);
    } else {
        let d = bytes.drop_last();
        assert(bytes.contains(bytes.last())) by {
            assert(bytes[bytes.len() - 1] == bytes.last());
        }
        assert forall|i: int| 0 <= i < d.len() implies #[trigger] d[i] != 10 by {
            assert(bytes.contains(bytes[i]));
        }
        lemma_unfinished(left, d);
        assert((left + d).push(bytes.last()) =~= left + bytes);
    }
}

/// The carriage return before an end mark does not belong to the line; others do.
pub proof fn law_carriage_returns_go(line: Seq<u8>)
    ensures
        without_cr(line.push(13u8)) == line,
        line.len() > 0 && line.last() != 13 ==> without_cr(line) == line,
        without_cr(Seq::empty()) == Seq::<u8>::empty(),
{
    assert(line.push(13u8).drop_last() =~= line);
}

/// The data of some lines come in the order of the lines.
pub proof fn law_data_come_in_order(a: Seq<Seq<u8>>, b: Seq<Seq<u8>>)
    ensures
        payloads(a + b) == payloads(a) + payloads(b),
    decreases b.len(),
{
    if b.len() == 0 {
        assert(a + b =~= a);
        assert(payloads(a) + payloads(b) =~= payloads(a));
    } else {
        assert((a + b).drop_last() =~= a + b.drop_last());
        law_data_come_in_order(a, b.drop_last());
        assert(payloads(a + b) =~= payloads(a) + payloads(b));
    }
}

/// What stands behind the mark of a data line, and behind one blank, is its data.
pub proof fn law_data_lines_hold_their_data(line: Seq<u8>, d: Seq<char>)
    requires
        line.len() == 0 || line.last() != 13,
        valid_utf8(line),
        decode_utf8(line) == "data:"@ + d,
    ensures
        d.len() > 0 && d[0] == ' ' ==> data_in(line) == Some(d.skip(1)),
        d.len() == 0 || d[0] != ' ' ==> data_in(line) == Some(d),
{
    let p = "data:"@;
    text::law_parts_are_found(Seq::empty(), p, d);
    assert((p + d).skip(p.len() as int) =~= d);
}

/// Lines without the mark hold no data.
pub proof fn law_other_lines_hold_no_data(line: Seq<u8>)
    requires
        line.len() == 0 || line.last() != 13,
        !valid_utf8(line) || !text::starts_with(decode_utf8(line), "data:"@),
    ensures
        data_in(line) is None,
{
}

/// A bar moves only towards a total that is known and is not 0.
pub proof fn law_bars_need_a_total(ev: StreamEvent)
    ensures
        moves_bar(ev) <==> ev.value is Some && ev.total is Some && ev.total->0 != 0,
{
}

/// What a server says of a success is told, or else what is usual; a refusal is an error with
/// its status.
pub proof fn law_answers_are_told(
    r: Result<Option<String>, String>,
    success: bool,
    status: Seq<char>,
    body: Seq<char>,
    message: Option<Seq<char>>,
    usual: Option<Seq<char>>,
)
    requires
        is_told(r, success, status, body, message, usual),
    ensures
        r is Ok <==> success,
        r matches Ok(m) ==> (message is Some ==> reporter::opt_text(m) == message) && (message
            is None ==> reporter::opt_text(m) == usual),
        r matches Err(e) ==> e@ == "daemon returned "@ + status + ": "@ + text::trim(body),
        unless_empty(Seq::empty()) is None,
        status.len() > 0 ==> unless_empty(status) == Some(status),
{
}

} // verus!
