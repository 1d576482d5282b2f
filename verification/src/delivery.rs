//! Delivery of the digest to the chat webhook: packing sections into messages
//! below the chat's length limit, and the texts that go over the wire.
use vstd::prelude::*;
use crate::number::{decimal_text, push_decimal};
use crate::text::{
    byte_count, contains_text, join_with, lemma_join_with_push, lemma_utf8_len_concat, lemma_utf8_len_newline, occurs_in,
    push_joined, texts, utf8_len,
};

verus! {

/// Effective body limit of one chat message, in bytes: the chat allows 2000
/// characters, less the code-block markup and some slack.
pub const CHUNK_LIMIT: usize = 1900;

/// One packing step: `section` is appended to the message being built, after a
/// newline when that message is not empty; when the message is not empty and
/// the section would push it over `limit` bytes, the message is closed first.
pub open spec fn chunk_step(
    state: (Seq<Seq<char>>, Seq<char>),
    section: Seq<char>,
    limit: int,
) -> (Seq<Seq<char>>, Seq<char>) {
    let (done, cur) = state;
    let flush = cur.len() > 0 && byte_count(cur) + byte_count(section) + 1 > limit;
    let done2 = if flush { done.push(cur) } else { done };
    let cur2 = if flush { Seq::<char>::empty() } else { cur };
    let cur3 = if cur2.len() > 0 { cur2.push('\n') } else { cur2 };
    (done2, cur3 + section)
}

/// Closed messages and the open one after packing `sections` behind `header`.
pub open spec fn chunk_fold(header: Seq<char>, sections: Seq<Seq<char>>, limit: int) -> (
    Seq<Seq<char>>,
    Seq<char>,
)
    decreases sections.len(),
{
    if sections.len() == 0 {
        (Seq::empty(), header)
    } else {
        chunk_step(chunk_fold(header, sections.drop_last(), limit), sections.last(), limit)
    }
}

/// The messages that greedy packing produces: the closed ones, then the open
/// one unless it is empty.
pub open spec fn chunk_spec(header: Seq<char>, sections: Seq<Seq<char>>, limit: int) -> Seq<
    Seq<char>,
> {
    let (done, cur) = chunk_fold(header, sections, limit);
    if cur.len() > 0 {
        done.push(cur)
    } else {
        done
    }
}

/// Whether `cur + section + 1` bytes exceed the limit, computed without overflow.
fn exceeds_limit(cur_len: usize, section_len: usize) -> (r: bool)
    ensures
        r == (cur_len + section_len + 1 > CHUNK_LIMIT),
{
    section_len >= CHUNK_LIMIT || cur_len > CHUNK_LIMIT - 1 - section_len
}

/// Packs the header and the sections, in order, into messages of at most
/// `CHUNK_LIMIT` bytes, never splitting a section: a section joins the current
/// message after a newline when it fits, and starts a new message otherwise.
pub fn chunk_messages(header: &str, sections: &[String]) -> (msgs: Vec<String>)
    ensures
        texts(msgs@) == chunk_spec(header@, texts(sections@), CHUNK_LIMIT as int),
{
    let mut msgs: Vec<String> = Vec::new();
    let mut cur = String::from_str(header);
    let ghost all = texts(sections@);
    let mut i: usize = 0;
    while i < sections.len()
        invariant
            i <= sections.len(),
            all == texts(sections@),
            (texts(msgs@), cur@) == chunk_fold(header@, all.take(i as int), CHUNK_LIMIT as int),
        decreases sections.len() - i,
    {
        let s = &sections[i];
        let ghost before = (texts(msgs@), cur@);
        let cur_len = cur.as_str().len();
        let s_len = s.as_str().len();
        if !cur.as_str().is_empty() && exceeds_limit(cur_len, s_len) {
            let full = cur;
            msgs.push(full);
            cur = String::new();
        }
        if !cur.as_str().is_empty() {
            proof {
                reveal_strlit("\n");
            }
            cur.append("\n");
        }
        cur.append(s.as_str());
        proof {
            assert(all.take(i + 1).drop_last() =~= all.take(i as int));
            assert(all.take(i + 1).last() == s@);
            assert(texts(msgs@) =~= chunk_step(before, s@, CHUNK_LIMIT as int).0);
        }
        i = i + 1;
    }
    proof {
        assert(all.take(sections@.len() as int) =~= all);
    }
    if !cur.as_str().is_empty() {
        msgs.push(cur);
    }
    proof {
        let (done, c) = chunk_fold(header@, all, CHUNK_LIMIT as int);
        assert(texts(msgs@) =~= chunk_spec(header@, all, CHUNK_LIMIT as int));
    }
    msgs
}


/// Whether `m` is the header or one of the sections, untouched.
pub open spec fn is_piece(m: Seq<char>, header: Seq<char>, sections: Seq<Seq<char>>) -> bool {
    m == header || exists|j: int| 0 <= j < sections.len() && sections[j] == m
}

/// Every piece's byte length is a machine-sized integer.
pub open spec fn pieces_fit(header: Seq<char>, sections: Seq<Seq<char>>) -> bool {
    &&& utf8_len(header) <= usize::MAX
    &&& forall|j: int| 0 <= j < sections.len() ==> utf8_len(#[trigger] sections[j]) <= usize::MAX
}

/// A message is within the limit, or is one piece that alone exceeds it.
pub open spec fn message_ok(
    m: Seq<char>,
    header: Seq<char>,
    sections: Seq<Seq<char>>,
    limit: int,
) -> bool {
    utf8_len(m) <= limit || is_piece(m, header, sections)
}

proof fn lemma_fold_within_limit(header: Seq<char>, sections: Seq<Seq<char>>, limit: int)
    requires
        0 <= limit <= usize::MAX,
        pieces_fit(header, sections),
    ensures
        ({
            let (done, cur) = chunk_fold(header, sections, limit);
            &&& forall|k: int|
                0 <= k < done.len() ==> message_ok(#[trigger] done[k], header, sections, limit)
            &&& message_ok(cur, header, sections, limit)
        }),
    decreases sections.len(),
{
    if sections.len() > 0 {
        let prev = sections.drop_last();
        assert forall|j: int| 0 <= j < prev.len() implies utf8_len(#[trigger] prev[j])
            <= usize::MAX by {
            assert(prev[j] == sections[j]);
        }
        lemma_fold_within_limit(header, prev, limit);
        let (done, cur) = chunk_fold(header, prev, limit);
        let s = sections.last();
        assert(is_piece(s, header, sections)) by {
            assert(sections[sections.len() - 1] == s);
        }
        assert forall|m: Seq<char>| message_ok(m, header, prev, limit) implies message_ok(
            m,
            header,
            sections,
            limit,
        ) by {
            if m != header && utf8_len(m) > limit {
                let j = choose|j: int| 0 <= j < prev.len() && prev[j] == m;
                assert(sections[j] == m);
            }
        }
        let flush = cur.len() > 0 && byte_count(cur) + byte_count(s) + 1 > limit;
        if !flush && cur.len() > 0 {
            assert(utf8_len(cur) <= usize::MAX) by {
                if utf8_len(cur) > limit {
                    if cur != header {
                        let j = choose|j: int| 0 <= j < prev.len() && prev[j] == cur;
                        assert(sections[j] == cur);
                    }
                }
            }
            assert(utf8_len(s) <= usize::MAX) by {
                assert(sections[sections.len() - 1] == s);
            }
            lemma_utf8_len_concat(cur.push('\n'), s);
            lemma_utf8_len_concat(cur, seq!['\n']);
            lemma_utf8_len_newline();
            assert(cur.push('\n') =~= cur + seq!['\n']);
        } else {
            if flush {
                assert(Seq::<char>::empty() + s =~= s);
            } else {
                assert(cur + s =~= s);
            }
        }
        let (done2, cur2) = chunk_fold(header, sections, limit);
        assert forall|k: int| 0 <= k < done2.len() implies message_ok(
            #[trigger] done2[k],
            header,
            sections,
            limit,
        ) by {
            if k < done.len() {
                assert(done2[k] == done[k]);
            }
        }
    }
}

/// Size law: every message that holds more than one piece (header or section)
/// is at most `limit` bytes long; a longer message is a single piece, sent whole.
pub proof fn lemma_chunks_within_limit(header: Seq<char>, sections: Seq<Seq<char>>, limit: int)
    requires
        0 <= limit <= usize::MAX,
        pieces_fit(header, sections),
    ensures
        forall|k: int|
            0 <= k < chunk_spec(header, sections, limit).len() ==> message_ok(
                #[trigger] chunk_spec(header, sections, limit)[k],
                header,
                sections,
                limit,
            ),
{
    lemma_fold_within_limit(header, sections, limit);
    let (done, cur) = chunk_fold(header, sections, limit);
    let out = chunk_spec(header, sections, limit);
    assert forall|k: int| 0 <= k < out.len() implies message_ok(
        #[trigger] out[k],
        header,
        sections,
        limit,
    ) by {
        if k < done.len() {
            assert(out[k] == done[k]);
        }
    }
}

/// Lines joined with newlines.
pub open spec fn join_lines(lines: Seq<Seq<char>>) -> Seq<char> {
    join_with(lines, seq!['\n'])
}

proof fn lemma_join_push(lines: Seq<Seq<char>>, x: Seq<char>)
    ensures
        join_lines(lines.push(x)) == if lines.len() == 0 {
            x
        } else {
            join_lines(lines) + seq!['\n'] + x
        },
{
    lemma_join_with_push(lines, seq!['\n'], x);
}

proof fn lemma_fold_keeps_text(header: Seq<char>, sections: Seq<Seq<char>>, limit: int)
    requires
        header.len() > 0,
        forall|j: int| 0 <= j < sections.len() ==> (#[trigger] sections[j]).len() > 0,
    ensures
        ({
            let (done, cur) = chunk_fold(header, sections, limit);
            &&& cur.len() > 0
            &&& join_lines(done.push(cur)) == join_lines(seq![header] + sections)
        }),
    decreases sections.len(),
{
    if sections.len() == 0 {
        assert(seq![header] + sections =~= seq![header]);
        lemma_join_push(Seq::empty(), header);
    } else {
        let prev = sections.drop_last();
        assert forall|j: int| 0 <= j < prev.len() implies (#[trigger] prev[j]).len() > 0 by {
            assert(prev[j] == sections[j]);
        }
        lemma_fold_keeps_text(header, prev, limit);
        let (done, cur) = chunk_fold(header, prev, limit);
        let s = sections.last();
        assert(s.len() > 0) by {
            assert(sections[sections.len() - 1] == s);
        }
        assert((seq![header] + sections).drop_last() =~= seq![header] + prev);
        lemma_join_push(seq![header] + prev, s);
        assert((seq![header] + prev).push(s) =~= seq![header] + sections);
        let flush = byte_count(cur) + byte_count(s) + 1 > limit;
        if flush {
            assert(Seq::<char>::empty() + s =~= s);
            lemma_join_push(done.push(cur), s);
        } else {
            let cur2 = cur.push('\n') + s;
            lemma_join_push(done, cur2);
            lemma_join_push(done, cur);
            assert(cur2 =~= cur + seq!['\n'] + s);
            if done.len() > 0 {
                assert(join_lines(done) + seq!['\n'] + cur2 =~= join_lines(done) + seq!['\n'] + cur
                    + seq!['\n'] + s);
            }
        }
    }
}

/// The pieces a digest is packed from: the header, then the sections; an
/// empty header is left out.
pub open spec fn message_pieces(header: Seq<char>, sections: Seq<Seq<char>>) -> Seq<Seq<char>> {
    if header.len() == 0 {
        sections
    } else {
        seq![header] + sections
    }
}

/// Packing behind an empty header starts the first message with the first
/// section, as if that section were the header.
proof fn lemma_empty_header_fold(sections: Seq<Seq<char>>, limit: int)
    requires
        sections.len() > 0,
    ensures
        chunk_fold(Seq::empty(), sections, limit) == chunk_fold(
            sections[0],
            sections.drop_first(),
            limit,
        ),
    decreases sections.len(),
{
    let e = Seq::<char>::empty();
    if sections.len() == 1 {
        assert(sections.drop_last() =~= Seq::<Seq<char>>::empty());
        assert(sections.drop_first() =~= Seq::<Seq<char>>::empty());
        assert(chunk_fold(e, sections.drop_last(), limit) == (Seq::<Seq<char>>::empty(), e));
        assert(sections.last() == sections[0]);
        assert(e + sections[0] =~= sections[0]);
        assert(chunk_fold(sections[0], sections.drop_first(), limit) == (
            Seq::<Seq<char>>::empty(),
            sections[0],
        ));
    } else {
        let prev = sections.drop_last();
        lemma_empty_header_fold(prev, limit);
        assert(prev.drop_first() =~= sections.drop_first().drop_last());
        assert(prev[0] == sections[0]);
        assert(sections.drop_first().last() == sections.last());
        assert(chunk_fold(e, sections, limit) == chunk_step(
            chunk_fold(e, prev, limit),
            sections.last(),
            limit,
        ));
        assert(chunk_fold(sections[0], sections.drop_first(), limit) == chunk_step(
            chunk_fold(sections[0], sections.drop_first().drop_last(), limit),
            sections.drop_first().last(),
            limit,
        ));
    }
}

/// Content law: when every section is non-empty, joining the messages with
/// newlines gives back the header (left out when empty) and the sections
/// joined with newlines; nothing is lost, reordered or split.
pub proof fn lemma_chunks_keep_text(header: Seq<char>, sections: Seq<Seq<char>>, limit: int)
    requires
        forall|j: int| 0 <= j < sections.len() ==> (#[trigger] sections[j]).len() > 0,
    ensures
        join_lines(chunk_spec(header, sections, limit)) == join_lines(
            message_pieces(header, sections),
        ),
{
    if header.len() > 0 {
        lemma_fold_keeps_text(header, sections, limit);
    } else if sections.len() == 0 {
        assert(chunk_spec(header, sections, limit) =~= Seq::<Seq<char>>::empty());
    } else {
        let rest = sections.drop_first();
        assert forall|j: int| 0 <= j < rest.len() implies (#[trigger] rest[j]).len() > 0 by {
            assert(rest[j] == sections[j + 1]);
        }
        assert(sections[0].len() > 0);
        assert(header =~= Seq::<char>::empty());
        lemma_empty_header_fold(sections, limit);
        lemma_fold_keeps_text(sections[0], rest, limit);
        assert(seq![sections[0]] + rest =~= sections);
    }
}

/// A message body wrapped in a plain-text code block, as posted to the chat.
pub fn code_block(content: &str) -> (t: String)
    ensures
        t@ == "```text\n"@ + content@ + "\n```"@,
{
    let mut t = String::from_str("```text\n");
    t.append(content);
    t.append("\n```");
    t
}

/// A lower-case hexadecimal digit.
pub open spec fn hex_digit(d: int) -> char {
    if d < 10 {
        (d + 48) as char
    } else {
        (d + 87) as char
    }
}

/// How one character is written inside a JSON string: a quote and a
/// backslash are escaped with a backslash, backspace, tab, line feed, form
/// feed and carriage return by their short escapes, the other control
/// characters below U+0020 as `\u00XX` in lower-case hexadecimal; every other
/// character is written as it is.
pub open spec fn json_char_text(c: char) -> Seq<char> {
    let n = c as int;
    if c == '"' {
        seq!['\\', '"']
    } else if c == '\\' {
        seq!['\\', '\\']
    } else if n == 8 {
        seq!['\\', 'b']
    } else if n == 9 {
        seq!['\\', 't']
    } else if n == 10 {
        seq!['\\', 'n']
    } else if n == 12 {
        seq!['\\', 'f']
    } else if n == 13 {
        seq!['\\', 'r']
    } else if n < 32 {
        seq!['\\', 'u', '0', '0', hex_digit(n / 16), hex_digit(n % 16)]
    } else {
        seq![c]
    }
}

/// The characters of `s`, each as written inside a JSON string.
pub open spec fn json_escaped(s: Seq<char>) -> Seq<char>
    decreases s.len(),
{
    if s.len() == 0 {
        Seq::empty()
    } else {
        json_escaped(s.drop_last()) + json_char_text(s.last())
    }
}

/// The JSON text of a string: the string in double quotes, with JSON escapes.
pub open spec fn json_string_text(s: Seq<char>) -> Seq<char> {
    seq!['"'] + json_escaped(s) + seq!['"']
}

/// The JSON text of a string (`serde_json::to_string` on a `str`, which cannot
/// fail). The contract states serde_json's escaping of string contents.
#[verifier::external_body]
fn json_quote(s: &str) -> (t: String)
    ensures
        t@ == json_string_text(s@),
{
    serde_json::to_string(s).unwrap()
}

/// The JSON payload of a file post: an object whose `content` is `summary`.
pub fn file_payload(summary: &str) -> (t: String)
    ensures
        t@ == "{\"content\":"@ + json_string_text(summary@) + "}"@,
{
    let mut t = String::from_str("{\"content\":");
    let q = json_quote(summary);
    t.append(q.as_str());
    t.append("}");
    t
}

/// The boundary between the parts of a file post.
pub open spec fn boundary() -> Seq<char> {
    "----aws-hourly-brief-boundary"@
}

/// Content type of a file post.
pub fn multipart_content_type() -> (t: String)
    ensures
        t@ == "multipart/form-data; boundary="@ + boundary(),
{
    let mut t = String::from_str("multipart/form-data; boundary=");
    t.append("----aws-hourly-brief-boundary");
    t
}

/// Body of a file post: the JSON payload, then the text as a file attachment.
pub open spec fn multipart_text(payload: Seq<char>, filename: Seq<char>, text: Seq<char>) -> Seq<char> {
    "--"@ + boundary() + "\r\nContent-Disposition: form-data; name=\"payload_json\"\r\n"@
        + "Content-Type: application/json\r\n\r\n"@ + payload + "\r\n--"@ + boundary()
        + "\r\nContent-Disposition: form-data; name=\"files[0]\"; filename=\""@ + filename
        + "\"\r\nContent-Type: text/plain; charset=utf-8\r\n\r\n"@ + text + "\r\n--"@ + boundary()
        + "--\r\n"@
}

/// Body of a file post.
pub fn multipart_body(payload: &str, filename: &str, text: &str) -> (t: String)
    ensures
        t@ == multipart_text(payload@, filename@, text@),
{
    let mut t = String::from_str("--");
    t.append("----aws-hourly-brief-boundary");
    t.append("\r\nContent-Disposition: form-data; name=\"payload_json\"\r\n");
    t.append("Content-Type: application/json\r\n\r\n");
    t.append(payload);
    t.append("\r\n--");
    t.append("----aws-hourly-brief-boundary");
    t.append("\r\nContent-Disposition: form-data; name=\"files[0]\"; filename=\"");
    t.append(filename);
    t.append("\"\r\nContent-Type: text/plain; charset=utf-8\r\n\r\n");
    t.append(text);
    t.append("\r\n--");
    t.append("----aws-hourly-brief-boundary");
    t.append("--\r\n");
    assert(t@ =~= multipart_text(payload@, filename@, text@));
    t
}

/// How a digest is delivered.
pub enum Delivery {
    /// One post with the whole digest attached as a text file.
    File {
        /// The message text of the post.
        summary: String,
        /// The attachment's file name.
        filename: String,
        /// The attachment's text.
        text: String,
    },
    /// One post per message.
    Chunks(Vec<String>),
}

/// The whole digest as one text: the header, then the sections, one per line.
pub open spec fn whole_text(header: Seq<char>, sections: Seq<Seq<char>>) -> Seq<char> {
    header + seq!['\n'] + join_lines(sections)
}

/// Plans the delivery of a digest: in `file` delivery one post with the header
/// as its text and the whole digest attached as `brief.txt`; otherwise the
/// digest packed into messages by `chunk_messages`.
pub fn plan_delivery(delivery: &str, header: &str, sections: &[String]) -> (d: Delivery)
    ensures
        delivery@ == "file"@ ==> (d matches Delivery::File { summary, filename, text } && summary@
            == header@ && filename@ == "brief.txt"@ && text@ == whole_text(header@, texts(sections@))),
        delivery@ != "file"@ ==> (d matches Delivery::Chunks(m) && texts(m@) == chunk_spec(
            header@,
            texts(sections@),
            CHUNK_LIMIT as int,
        )),
{
    if crate::text::same_text(delivery, "file") {
        proof {
            reveal_strlit("\n");
            assert("\n"@ =~= seq!['\n']);
        }
        let mut text = String::from_str(header);
        text.append("\n");
        push_joined(&mut text, sections, "\n");
        Delivery::File {
            summary: String::from_str(header),
            filename: String::from_str("brief.txt"),
            text,
        }
    } else {
        Delivery::Chunks(chunk_messages(header, sections))
    }
}

/// Number of posts a delivery makes.
pub fn post_count(d: &Delivery) -> (n: usize)
    ensures
        d is File ==> n == 1,
        d matches Delivery::Chunks(m) ==> n == m@.len(),
{
    match d {
        Delivery::File { .. } => 1,
        Delivery::Chunks(m) => m.len(),
    }
}

/// Whether a failed post is retried: only the first attempt, and only when the
/// chat answered 429 (too many requests).
pub fn should_retry(attempt: u32, status: Option<u16>) -> (r: bool)
    ensures
        r == (attempt == 0 && status == Some(429u16)),
{
    attempt == 0 && status == Some(429u16)
}

/// Number of sections that report an error (that contain `ERROR`).
pub open spec fn error_count(sections: Seq<Seq<char>>) -> nat
    decreases sections.len(),
{
    if sections.len() == 0 {
        0
    } else {
        error_count(sections.drop_last()) + if occurs_in(sections.last(), "ERROR"@) {
            1nat
        } else {
            0nat
        }
    }
}

/// Counts the sections that report an error.
pub fn count_error_sections(sections: &[String]) -> (n: usize)
    ensures
        n == error_count(texts(sections@)),
{
    let ghost all = texts(sections@);
    let mut n: usize = 0;
    let mut i: usize = 0;
    while i < sections.len()
        invariant
            i <= sections@.len(),
            all == texts(sections@),
            n == error_count(all.take(i as int)),
            n <= i,
        decreases sections@.len() - i,
    {
        proof {
            assert(all.take(i + 1).drop_last() =~= all.take(i as int));
            assert(all.take(i + 1).last() == sections@[i as int]@);
        }
        if contains_text(sections[i].as_str(), "ERROR") {
            n = n + 1;
        }
        i = i + 1;
    }
    assert(all.take(sections@.len() as int) =~= all);
    n
}

/// Whether every pair failed (or there were none): then only a short notice
/// is posted.
pub fn all_failed(section_count: usize, error_count: usize) -> (r: bool)
    ensures
        r == (section_count == 0 || error_count == section_count),
{
    section_count == 0 || error_count == section_count
}

/// The notice posted when every pair failed.
pub fn failure_notice(header: &str, errors: usize) -> (t: String)
    ensures
        t@ == header@ + "\n(all pairs failed: "@ + decimal_text(errors as nat) + " errors)"@,
{
    let mut t = String::from_str(header);
    t.append("\n(all pairs failed: ");
    push_decimal(&mut t, errors as u64);
    t.append(" errors)");
    t
}


proof fn lemma_join_lines_front(header: Seq<char>, sections: Seq<Seq<char>>)
    requires
        sections.len() > 0,
    ensures
        join_lines(seq![header] + sections) == header + seq!['\n'] + join_lines(sections),
    decreases sections.len(),
{
    let all = seq![header] + sections;
    assert(all.drop_last() =~= seq![header] + sections.drop_last());
    assert(all.last() == sections.last());
    lemma_join_push(sections.drop_last(), sections.last());
    assert(sections.drop_last().push(sections.last()) =~= sections);
    lemma_join_push(all.drop_last(), all.last());
    assert(all.drop_last().push(all.last()) =~= all);
    if sections.len() == 1 {
        assert(all.drop_last() =~= seq![header]);
        assert(join_lines(seq![header]) == header);
        assert(sections.drop_last() =~= Seq::<Seq<char>>::empty());
    } else {
        lemma_join_lines_front(header, sections.drop_last());
        assert(header + seq!['\n'] + join_lines(sections.drop_last()) + seq!['\n'] + sections.last()
            =~= header + seq!['\n'] + (join_lines(sections.drop_last()) + seq!['\n']
            + sections.last()));
    }
}

/// Both delivery forms carry the same digest: with a non-empty header and at
/// least one section, none of them empty, the chunked messages joined with
/// newlines are exactly the text of the attached file.
pub proof fn lemma_deliveries_carry_the_same_text(header: Seq<char>, sections: Seq<Seq<char>>)
    requires
        header.len() > 0,
        sections.len() > 0,
        forall|j: int| 0 <= j < sections.len() ==> (#[trigger] sections[j]).len() > 0,
    ensures
        join_lines(chunk_spec(header, sections, CHUNK_LIMIT as int)) == whole_text(header, sections),
{
    lemma_fold_keeps_text(header, sections, CHUNK_LIMIT as int);
    lemma_join_lines_front(header, sections);
}


/// Each message is a run of whole consecutive pieces joined with newlines,
/// the runs following one another and covering all the pieces: `b` marks
/// where each run starts, and where the last one ends.
pub open spec fn breaks_at(msgs: Seq<Seq<char>>, pieces: Seq<Seq<char>>, b: Seq<int>) -> bool {
    &&& b.len() == msgs.len() + 1
    &&& b[0] == 0
    &&& b.last() == pieces.len()
    &&& forall|k: int| 0 <= k < msgs.len() ==> #[trigger] b[k] < b[k + 1]
    &&& forall|k: int|
        0 <= k < msgs.len() ==> (#[trigger] msgs[k]) == join_lines(pieces.subrange(b[k], b[k + 1]))
}

proof fn lemma_fold_runs(header: Seq<char>, sections: Seq<Seq<char>>, limit: int) -> (b: Seq<int>)
    requires
        header.len() > 0,
        forall|j: int| 0 <= j < sections.len() ==> (#[trigger] sections[j]).len() > 0,
    ensures
        b.len() == chunk_fold(header, sections, limit).0.len() + 1,
        b[0] == 0,
        0 <= b.last() < sections.len() + 1,
        forall|k: int| 0 <= k < b.len() ==> 0 <= #[trigger] b[k] <= b.last(),
        forall|k: int| 0 <= k < chunk_fold(header, sections, limit).0.len() ==> #[trigger] b[k] < b[k
            + 1],
        forall|k: int|
            0 <= k < chunk_fold(header, sections, limit).0.len() ==> (#[trigger] chunk_fold(
                header,
                sections,
                limit,
            ).0[k]) == join_lines((seq![header] + sections).subrange(b[k], b[k + 1])),
        chunk_fold(header, sections, limit).1 == join_lines(
            (seq![header] + sections).subrange(b.last(), sections.len() + 1int),
        ),
        forall|k: int|
            0 <= k < chunk_fold(header, sections, limit).0.len() ==> byte_count(
                #[trigger] chunk_fold(header, sections, limit).0[k],
            ) + byte_count((seq![header] + sections)[b[k + 1]]) + 1 > limit,
    decreases sections.len(),
{
    let pieces = seq![header] + sections;
    if sections.len() == 0 {
        lemma_join_push(Seq::empty(), header);
        assert(pieces.subrange(0, 1) =~= Seq::<Seq<char>>::empty().push(header));
        let b = seq![0int];
        assert(b.last() == 0);
        assert(chunk_fold(header, sections, limit).0.len() == 0);
        b
    } else {
        let prev = sections.drop_last();
        assert forall|j: int| 0 <= j < prev.len() implies (#[trigger] prev[j]).len() > 0 by {
            assert(prev[j] == sections[j]);
        }
        let b0 = lemma_fold_runs(header, prev, limit);
        lemma_fold_keeps_text(header, prev, limit);
        let (done, cur) = chunk_fold(header, prev, limit);
        let s = sections.last();
        let pp = seq![header] + prev;
        assert(pieces =~= pp.push(s));
        let n = pp.len() as int;
        let flush = byte_count(cur) + byte_count(s) + 1 > limit;
        let (done2, cur2) = chunk_fold(header, sections, limit);
        assert forall|k: int| 0 <= k < done.len() implies (#[trigger] pieces.subrange(b0[k], b0[k + 1]))
            == pp.subrange(b0[k], b0[k + 1]) by {
            assert(done[k] == join_lines(pp.subrange(b0[k], b0[k + 1])));
            assert(0 <= b0[k]);
            assert(b0[k + 1] <= b0.last());
            assert(pieces.subrange(b0[k], b0[k + 1]) =~= pp.subrange(b0[k], b0[k + 1]));
        }
        let st = b0.last();
        assert(pieces.subrange(st, n) =~= pp.subrange(st, n));
        if flush {
            let b = b0.push(n);
            assert(Seq::<char>::empty() + s =~= s);
            lemma_join_push(Seq::empty(), s);
            assert(pieces.subrange(n, n + 1) =~= Seq::<Seq<char>>::empty().push(s));
            assert forall|k: int| 0 <= k < done2.len() implies b[k] < b[k + 1] && (
            #[trigger] done2[k]) == join_lines(pieces.subrange(b[k], b[k + 1])) by {
                if k < done.len() {
                    assert(done2[k] == done[k]);
                    assert(done[k] == join_lines(pp.subrange(b0[k], b0[k + 1])));
                    assert(b[k] == b0[k] && b[k + 1] == b0[k + 1]);
                } else {
                    assert(k == done.len());
                    assert(done2[k] == cur);
                    assert(b[k] == st);
                    assert(b[k + 1] == n);
                }
            }
            assert forall|k: int| 0 <= k < b.len() implies 0 <= #[trigger] b[k] <= b.last() by {
                if k < b0.len() {
                    assert(b[k] == b0[k]);
                }
            }
            assert(cur2 == s);
            assert(pieces.subrange(b.last(), pieces.len() as int) =~= seq![s]);
            assert(b[0] == b0[0]);
            assert forall|k: int|
                0 <= k < chunk_fold(header, sections, limit).0.len() implies b[k] < b[k + 1] && (
                #[trigger] chunk_fold(header, sections, limit).0[k]) == join_lines(
                    (seq![header] + sections).subrange(b[k], b[k + 1]),
                ) by {
                assert(chunk_fold(header, sections, limit).0[k] == done2[k]);
            }
            assert forall|k: int| 0 <= k < done2.len() implies byte_count(#[trigger] done2[k])
                + byte_count(pieces[b[k + 1]]) + 1 > limit by {
                if k < done.len() {
                    assert(done2[k] == done[k]);
                    assert(b[k + 1] == b0[k + 1]);
                    assert(b0[k + 1] <= b0.last());
                    assert(pieces[b0[k + 1]] == pp[b0[k + 1]]);
                } else {
                    assert(done2[k] == cur);
                    assert(b[k + 1] == n);
                    assert(pieces[n] == s);
                }
            }
            assert forall|k: int| 0 <= k < chunk_fold(header, sections, limit).0.len() implies byte_count(
                #[trigger] chunk_fold(header, sections, limit).0[k],
            ) + byte_count((seq![header] + sections)[b[k + 1]]) + 1 > limit by {
                assert(chunk_fold(header, sections, limit).0[k] == done2[k]);
            }
            b
        } else {
            assert(pieces.subrange(st, n + 1) =~= pp.subrange(st, n).push(s));
            lemma_join_push(pp.subrange(st, n), s);
            assert(cur.push('\n') + s =~= cur + seq!['\n'] + s);
            assert forall|k: int| 0 <= k < done2.len() implies b0[k] < b0[k + 1] && (
            #[trigger] done2[k]) == join_lines(pieces.subrange(b0[k], b0[k + 1])) by {
                assert(done2[k] == done[k]);
                assert(done[k] == join_lines(pp.subrange(b0[k], b0[k + 1])));
            }
            assert(cur2 == cur.push('\n') + s);
            assert(done2 == done);
            assert forall|k: int|
                0 <= k < chunk_fold(header, sections, limit).0.len() implies b0[k] < b0[k + 1] && (
                #[trigger] chunk_fold(header, sections, limit).0[k]) == join_lines(
                    (seq![header] + sections).subrange(b0[k], b0[k + 1]),
                ) by {
                assert(chunk_fold(header, sections, limit).0[k] == done2[k]);
            }
            assert forall|k: int| 0 <= k < chunk_fold(header, sections, limit).0.len() implies byte_count(
                #[trigger] chunk_fold(header, sections, limit).0[k],
            ) + byte_count((seq![header] + sections)[b0[k + 1]]) + 1 > limit by {
                assert(chunk_fold(header, sections, limit).0[k] == done2[k]);
                assert(done2[k] == done[k]);
                assert(b0[k + 1] <= b0.last());
                assert(pieces[b0[k + 1]] == pp[b0[k + 1]]);
            }
            b0
        }
    }
}

/// No message but the last could also hold the piece that starts the next
/// one: that piece, after a newline, would take it over `limit` bytes.
pub open spec fn packed_greedily(
    msgs: Seq<Seq<char>>,
    pieces: Seq<Seq<char>>,
    b: Seq<int>,
    limit: int,
) -> bool {
    forall|k: int|
        0 <= k < msgs.len() - 1 ==> byte_count(#[trigger] msgs[k]) + byte_count(pieces[b[k + 1]]) + 1
            > limit
}

proof fn lemma_runs_behind_header(header: Seq<char>, sections: Seq<Seq<char>>, limit: int) -> (b: Seq<
    int,
>)
    requires
        header.len() > 0,
        forall|j: int| 0 <= j < sections.len() ==> (#[trigger] sections[j]).len() > 0,
    ensures
        breaks_at(chunk_spec(header, sections, limit), seq![header] + sections, b),
        packed_greedily(chunk_spec(header, sections, limit), seq![header] + sections, b, limit),
{
    let b0 = lemma_fold_runs(header, sections, limit);
    lemma_fold_keeps_text(header, sections, limit);
    let (done, cur) = chunk_fold(header, sections, limit);
    let pieces = seq![header] + sections;
    let msgs = chunk_spec(header, sections, limit);
    let b = b0.push(pieces.len() as int);
    assert forall|k: int| 0 <= k < msgs.len() implies b[k] < b[k + 1] && (#[trigger] msgs[k])
        == join_lines(pieces.subrange(b[k], b[k + 1])) by {
        if k < done.len() {
            assert(msgs[k] == done[k]);
            assert(b[k] == b0[k] && b[k + 1] == b0[k + 1]);
        } else {
            assert(msgs[k] == cur);
            assert(b[k] == b0.last());
        }
    }
    assert forall|k: int| 0 <= k < msgs.len() - 1 implies byte_count(#[trigger] msgs[k])
        + byte_count(pieces[b[k + 1]]) + 1 > limit by {
        assert(msgs[k] == done[k]);
        assert(b[k + 1] == b0[k + 1]);
    }
    assert(b[0] == b0[0]);
    b
}

/// Where the messages break: a run of whole pieces per message, each message
/// full as far as the next piece is concerned.
proof fn lemma_chunk_runs(header: Seq<char>, sections: Seq<Seq<char>>, limit: int) -> (b: Seq<int>)
    requires
        forall|j: int| 0 <= j < sections.len() ==> (#[trigger] sections[j]).len() > 0,
    ensures
        breaks_at(chunk_spec(header, sections, limit), message_pieces(header, sections), b),
        packed_greedily(chunk_spec(header, sections, limit), message_pieces(header, sections), b, limit),
{
    if header.len() > 0 {
        lemma_runs_behind_header(header, sections, limit)
    } else if sections.len() == 0 {
        let msgs = chunk_spec(header, sections, limit);
        assert(msgs =~= Seq::<Seq<char>>::empty());
        let b = seq![0int];
        assert(b.last() == 0);
        b
    } else {
        let rest = sections.drop_first();
        assert forall|j: int| 0 <= j < rest.len() implies (#[trigger] rest[j]).len() > 0 by {
            assert(rest[j] == sections[j + 1]);
        }
        assert(sections[0].len() > 0);
        assert(header =~= Seq::<char>::empty());
        lemma_empty_header_fold(sections, limit);
        assert(seq![sections[0]] + rest =~= sections);
        assert(chunk_spec(header, sections, limit) == chunk_spec(sections[0], rest, limit));
        lemma_runs_behind_header(sections[0], rest, limit)
    }
}

/// Boundary law: with non-empty sections, every message is a run of whole
/// consecutive pieces (the header unless it is empty, then the sections)
/// joined with newlines, and the runs follow one another in order and cover
/// every piece: no section is ever split between two messages.
pub proof fn lemma_chunks_break_at_sections(header: Seq<char>, sections: Seq<Seq<char>>, limit: int)
    requires
        forall|j: int| 0 <= j < sections.len() ==> (#[trigger] sections[j]).len() > 0,
    ensures
        exists|b: Seq<int>| breaks_at(chunk_spec(header, sections, limit), message_pieces(header, sections), b),
{
    let b = lemma_chunk_runs(header, sections, limit);
}

/// Fullness law: with non-empty sections, the messages break so that no
/// message but the last could also have held the piece that starts the next
/// one without going over `limit` bytes; a new message is started only when
/// it has to be.
pub proof fn lemma_chunks_are_full(header: Seq<char>, sections: Seq<Seq<char>>, limit: int)
    requires
        forall|j: int| 0 <= j < sections.len() ==> (#[trigger] sections[j]).len() > 0,
    ensures
        exists|b: Seq<int>|
            {
                &&& breaks_at(chunk_spec(header, sections, limit), message_pieces(header, sections), b)
                &&& packed_greedily(
                    chunk_spec(header, sections, limit),
                    message_pieces(header, sections),
                    b,
                    limit,
                )
            },
{
    let b = lemma_chunk_runs(header, sections, limit);
}

/// Error counts add up: the sections of two runs put together have the
/// errors of both.
pub proof fn lemma_error_count_adds(a: Seq<Seq<char>>, b: Seq<Seq<char>>)
    ensures
        error_count(a + b) == error_count(a) + error_count(b),
    decreases b.len(),
{
    if b.len() == 0 {
        assert(a + b =~= a);
    } else {
        assert((a + b).drop_last() =~= a + b.drop_last());
        assert((a + b).last() == b.last());
        lemma_error_count_adds(a, b.drop_last());
    }
}

/// One section counts one error exactly when it contains `ERROR`.
pub proof fn lemma_error_count_single(x: Seq<char>)
    ensures
        error_count(seq![x]) == (if occurs_in(x, "ERROR"@) {
            1nat
        } else {
            0nat
        }),
{
    let one = seq![x];
    assert(one.drop_last() =~= Seq::<Seq<char>>::empty());
    assert(one.last() == x);
    assert(error_count(one.drop_last()) == 0);
}

/// Error-count law: the count is the number of positions, the first one
/// included, whose section contains `ERROR`: it is never more than the number
/// of sections, and equals it exactly when every section contains `ERROR`;
/// it is zero exactly when none does.
pub proof fn lemma_error_count_counts_every_section(sections: Seq<Seq<char>>)
    ensures
        error_count(sections) <= sections.len(),
        error_count(sections) == sections.len() <==> forall|i: int|
            0 <= i < sections.len() ==> occurs_in(#[trigger] sections[i], "ERROR"@),
        error_count(sections) == 0 <==> forall|i: int|
            0 <= i < sections.len() ==> !occurs_in(#[trigger] sections[i], "ERROR"@),
    decreases sections.len(),
{
    if sections.len() > 0 {
        let prev = sections.drop_last();
        let x = sections.last();
        lemma_error_count_counts_every_section(prev);
        lemma_error_count_adds(prev, seq![x]);
        lemma_error_count_single(x);
        assert(prev + seq![x] =~= sections);
        assert forall|i: int| 0 <= i < prev.len() implies prev[i] == sections[i] by {}
        assert(sections[sections.len() - 1] == x);
        if forall|i: int| 0 <= i < sections.len() ==> occurs_in(#[trigger] sections[i], "ERROR"@) {
            assert forall|i: int| 0 <= i < prev.len() implies occurs_in(#[trigger] prev[i], "ERROR"@) by {
                assert(occurs_in(sections[i], "ERROR"@));
            }
        }
        if forall|i: int| 0 <= i < sections.len() ==> !occurs_in(#[trigger] sections[i], "ERROR"@) {
            assert forall|i: int| 0 <= i < prev.len() implies !occurs_in(#[trigger] prev[i], "ERROR"@) by {
                assert(!occurs_in(sections[i], "ERROR"@));
            }
        }
    }
}

} // verus!
