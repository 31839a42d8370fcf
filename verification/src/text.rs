//! Message text for the operator's chat: HTML escaping, and fitting a report into
//! Telegram's per-message cap.
//!
//! Replies use HTML, which has three special characters, rather than Markdown, whose
//! unbalanced entities make Telegram reject the whole message. Every value that did not
//! originate in this crate is escaped. A report longer than the cap is split on line
//! boundaries, so no HTML tag is ever cut in half.
use vstd::prelude::*;
use vstd::string::StringSliceAdditionalSpecFns;
use vstd::utf8::{encode_utf8, is_char_boundary, valid_utf8};

verus! {

broadcast use vstd::string::axiom_spec_iter, vstd::utf8::encode_utf8_valid_utf8;

/// Telegram's hard cap on one message, in bytes.
pub const MAX_MESSAGE: usize = 4096;

/// Appends one character to a `String` (std's `String::push`, which appends the given
/// `char` to the end of the string). The contract says exactly that of the characters.
#[verifier::external_body]
pub(crate) fn push_char(s: &mut String, c: char)
    ensures
        final(s)@ == old(s)@.push(c),
{
    s.push(c);
}

/// The HTML escape of one character.
pub open spec fn esc_char(c: char) -> Seq<char> {
    if c == '&' {
        "&amp;"@
    } else if c == '<' {
        "&lt;"@
    } else if c == '>' {
        "&gt;"@
    } else {
        seq![c]
    }
}

/// The HTML escape of a string: each character escaped in turn.
pub open spec fn esc_spec(s: Seq<char>) -> Seq<char>
    decreases s.len(),
{
    if s.len() == 0 {
        Seq::empty()
    } else {
        esc_spec(s.drop_last()) + esc_char(s.last())
    }
}

/// Escape text for Telegram's HTML parse mode: `&`, `<` and `>` become entities and every
/// other character is kept.
pub fn esc(s: &str) -> (r: String)
    ensures
        r@ == esc_spec(s@),
{
    let mut out = String::new();
    for c in it: s.chars()
        invariant
            it.seq() == s@,
            out@ == esc_spec(s@.take(it.index() as int)),
    {
        assert(s@.take(it.index() + 1).drop_last() =~= s@.take(it.index() as int));
        if c == '&' {
            out.append("&amp;");
        } else if c == '<' {
            out.append("&lt;");
        } else if c == '>' {
            out.append("&gt;");
        } else {
            push_char(&mut out, c);
        }
    }
    assert(s@.take(s@.len() as int) =~= s@);
    out
}

/// The UTF-8 encoding of a concatenation is the concatenation of the encodings.
pub proof fn encode_utf8_concat(a: Seq<char>, b: Seq<char>)
    ensures
        encode_utf8(a + b) == encode_utf8(a) + encode_utf8(b),
    decreases a.len(),
{
    if a.len() == 0 {
        assert(a + b =~= b);
    } else {
        encode_utf8_concat(a.drop_first(), b);
        assert((a + b).drop_first() =~= a.drop_first() + b);
        assert((a + b)[0] == a[0]);
    }
}

/// The byte length of a string's UTF-8 encoding.
pub open spec fn blen(s: Seq<char>) -> nat {
    encode_utf8(s).len()
}

/// The ellipsis that marks a cut message; three bytes in UTF-8.
pub open spec fn ellipsis_bytes() -> Seq<u8> {
    seq![0xE2u8, 0x80, 0xA6]
}

/// The ellipsis is encoded as the three bytes E2 80 A6.
proof fn ellipsis_encoding()
    ensures
        encode_utf8("…"@) == ellipsis_bytes(),
{
    reveal_strlit("…");
    let v: u32 = 0x2026;
    assert('…' as u32 == v);
    assert(0xE0u8 | ((v >> 12u32) & 0x0Fu32) as u8 == 0xE2u8) by (bit_vector)
        requires v == 0x2026u32;
    assert(0x80u8 | ((v >> 6u32) & 0x3Fu32) as u8 == 0x80u8) by (bit_vector)
        requires v == 0x2026u32;
    assert(0x80u8 | (v & 0x3Fu32) as u8 == 0xA6u8) by (bit_vector)
        requires v == 0x2026u32;
    assert(vstd::utf8::has_width_3_encoding(v));
    let e = seq!['…'];
    assert(e.drop_first() =~= Seq::<char>::empty());
    assert(encode_utf8(Seq::<char>::empty()) =~= Seq::<u8>::empty());
    assert(vstd::utf8::encode_scalar(v) =~= ellipsis_bytes());
    assert(encode_utf8(e) =~= vstd::utf8::encode_scalar(e[0] as u32) + encode_utf8(e.drop_first()));
    assert(encode_utf8(e) =~= ellipsis_bytes());
    assert("…"@ =~= e);
}

/// The last char boundary of `b` at or before `end`.
pub open spec fn boundary_at_or_before(b: Seq<u8>, end: int) -> int
    decreases end,
{
    if end <= 0 || is_char_boundary(b, end) {
        if end <= 0 { 0 } else { end }
    } else {
        boundary_at_or_before(b, end - 1)
    }
}

/// A message cut to fit the cap: unchanged when it fits; otherwise its bytes up to the
/// last char boundary that leaves room for the ellipsis, then the ellipsis.
pub open spec fn truncate_bytes(b: Seq<u8>) -> Seq<u8> {
    if b.len() <= MAX_MESSAGE {
        b
    } else {
        b.subrange(0, boundary_at_or_before(b, MAX_MESSAGE - 3)) + ellipsis_bytes()
    }
}

/// Cut a message to Telegram's cap. The ellipsis comes out of the budget, and the cut
/// falls on a char boundary, never inside a multi-byte character.
pub fn truncate(s: &str) -> (r: String)
    requires
        s.spec_bytes().len() <= usize::MAX,
    ensures
        encode_utf8(r@) == truncate_bytes(s.spec_bytes()),
        blen(r@) <= MAX_MESSAGE,
{
    if s.len() <= MAX_MESSAGE {
        return String::from_str(s);
    }
    let ghost b = s.spec_bytes();
    let mut end: usize = MAX_MESSAGE - 3;
    while end > 0 && !s.is_char_boundary(end)
        invariant
            0 <= end <= MAX_MESSAGE - 3,
            b == s.spec_bytes(),
            b.len() > MAX_MESSAGE,
            boundary_at_or_before(b, end as int) == boundary_at_or_before(b, MAX_MESSAGE - 3),
        decreases end,
    {
        end = end - 1;
    }
    proof {
        vstd::utf8::is_char_boundary_start_end_of_seq(b);
    }
    let (head, _) = s.split_at(end);
    let mut out = String::from_str(head);
    out.append("…");
    proof {
        reveal_strlit("…");
        encode_utf8_concat(head@, "…"@);
        ellipsis_encoding();
    }
    out
}

/// One step of reading lines: a newline ends the current line, dropping a carriage
/// return just before it; any other character extends the line.
pub open spec fn line_step(st: (Seq<Seq<char>>, Seq<char>), c: char) -> (Seq<Seq<char>>, Seq<char>) {
    if c == '\n' {
        (st.0.push(strip_cr(st.1)), Seq::empty())
    } else {
        (st.0, st.1.push(c))
    }
}

/// A line without the carriage return that ended it, if it had one.
pub open spec fn strip_cr(line: Seq<char>) -> Seq<char> {
    if line.len() > 0 && line.last() == '\r' { line.drop_last() } else { line }
}

/// The finished lines and the unfinished one after reading `s`.
pub open spec fn scan_lines(s: Seq<char>) -> (Seq<Seq<char>>, Seq<char>)
    decreases s.len(),
{
    if s.len() == 0 {
        (Seq::empty(), Seq::empty())
    } else {
        line_step(scan_lines(s.drop_last()), s.last())
    }
}

/// The lines of `s`, as `str::lines` yields them: split at newlines, a carriage return
/// before a newline dropped, and a last unterminated line kept when it is not empty.
pub open spec fn lines_spec(s: Seq<char>) -> Seq<Seq<char>> {
    let st = scan_lines(s);
    if st.1.len() > 0 { st.0.push(st.1) } else { st.0 }
}

/// One step of packing lines into messages. A line that alone reaches the cap closes the
/// current message and goes out truncated on its own; a line that would push the current
/// message over the cap starts a new one; otherwise it joins the current message. Each
/// line carries its newline.
pub open spec fn pack_step(st: (Seq<Seq<u8>>, Seq<u8>), line: Seq<char>) -> (Seq<Seq<u8>>, Seq<u8>) {
    let lb = encode_utf8(line);
    if lb.len() >= MAX_MESSAGE {
        ((if st.1.len() > 0 { st.0.push(st.1) } else { st.0 }).push(truncate_bytes(lb)), Seq::empty())
    } else if st.1.len() + lb.len() + 1 > MAX_MESSAGE {
        (st.0.push(st.1), lb.push(10u8))
    } else {
        (st.0, st.1 + lb.push(10u8))
    }
}

/// The finished messages and the one being filled after packing `lines`.
pub open spec fn pack(lines: Seq<Seq<char>>) -> (Seq<Seq<u8>>, Seq<u8>)
    decreases lines.len(),
{
    if lines.len() == 0 {
        (Seq::empty(), Seq::empty())
    } else {
        pack_step(pack(lines.drop_last()), lines.last())
    }
}

/// The messages a report is sent as, each given by its bytes: the report itself when it
/// fits; otherwise its lines packed into messages, the last one included when not empty.
pub open spec fn split_spec(s: Seq<char>) -> Seq<Seq<u8>> {
    if blen(s) <= MAX_MESSAGE {
        seq![encode_utf8(s)]
    } else {
        let st = pack(lines_spec(s));
        if st.1.len() > 0 { st.0.push(st.1) } else { st.0 }
    }
}

/// The bytes of each string.
pub open spec fn strings_bytes(v: Seq<String>) -> Seq<Seq<u8>> {
    Seq::new(v.len(), |i: int| encode_utf8(v[i]@))
}

/// Every message fits the cap.
pub open spec fn all_fit(parts: Seq<Seq<u8>>) -> bool {
    forall|i: int| 0 <= i < parts.len() ==> (#[trigger] parts[i]).len() <= MAX_MESSAGE
}

/// A prefix of a string takes no more bytes than the string.
proof fn prefix_blen(s: Seq<char>, k: int)
    requires
        0 <= k <= s.len(),
    ensures
        blen(s.take(k)) <= blen(s),
{
    encode_utf8_concat(s.take(k), s.skip(k));
    assert(s.take(k) + s.skip(k) =~= s);
}

/// A newline is encoded as the single byte 10.
proof fn newline_encoding()
    ensures
        encode_utf8(seq!['\n']) == seq![10u8],
{
    let v: u32 = 10;
    assert('\n' as u32 == v);
    assert((v & 0x7Fu32) as u8 == 10u8) by (bit_vector)
        requires v == 10u32;
    let e = seq!['\n'];
    assert(e.drop_first() =~= Seq::<char>::empty());
    assert(encode_utf8(Seq::<char>::empty()) =~= Seq::<u8>::empty());
    assert(vstd::utf8::encode_scalar(v) =~= seq![10u8]);
    assert(encode_utf8(e) =~= vstd::utf8::encode_scalar(e[0] as u32) + encode_utf8(e.drop_first()));
    assert(encode_utf8(e) =~= seq![10u8]);
}

/// Append a string to a list, keeping the byte view in step.
fn push_part(out: &mut Vec<String>, part: String)
    ensures
        strings_bytes(final(out)@) == strings_bytes(old(out)@).push(encode_utf8(part@)),
{
    out.push(part);
    assert(strings_bytes(out@) =~= strings_bytes(old(out)@).push(encode_utf8(part@)));
}

/// Pack one line into the messages, as `pack_step` says.
fn push_line(out: &mut Vec<String>, cur: &mut String, line: &String)
    requires
        blen(old(cur)@) <= MAX_MESSAGE,
        blen(line@) <= usize::MAX,
        all_fit(strings_bytes(old(out)@)),
    ensures
        (strings_bytes(final(out)@), encode_utf8(final(cur)@)) == pack_step(
            (strings_bytes(old(out)@), encode_utf8(old(cur)@)),
            line@,
        ),
        blen(final(cur)@) <= MAX_MESSAGE,
        all_fit(strings_bytes(final(out)@)),
{
    let ghost lb = encode_utf8(line@);
    let n = line.as_str().len();
    if n >= MAX_MESSAGE {
        if cur.as_str().len() > 0 {
            let mut taken = String::new();
            std::mem::swap(&mut taken, cur);
            push_part(out, taken);
        }
        let t = truncate(line.as_str());
        push_part(out, t);
        *cur = String::new();
        assert(encode_utf8(cur@) =~= Seq::<u8>::empty());
        return;
    }
    if cur.as_str().len() + n + 1 > MAX_MESSAGE {
        let mut taken = String::new();
        std::mem::swap(&mut taken, cur);
        push_part(out, taken);
    }
    let ghost before = cur@;
    cur.append(line.as_str());
    push_char(cur, '\n');
    proof {
        encode_utf8_concat(before, line@);
        encode_utf8_concat(before + line@, seq!['\n']);
        newline_encoding();
        assert(cur@ =~= before + line@ + seq!['\n']);
        assert(encode_utf8(before) + lb + seq![10u8] =~= encode_utf8(before) + lb.push(10u8));
    }
}

/// Split a report into messages that each fit Telegram's cap, on line boundaries, never
/// mid-line: cutting mid-line could cut an HTML entity in half and fail the whole send.
/// A single line too long for one message is truncated on its own.
pub fn split_message(s: &str) -> (parts: Vec<String>)
    requires
        s.spec_bytes().len() <= usize::MAX,
    ensures
        strings_bytes(parts@) == split_spec(s@),
        all_fit(strings_bytes(parts@)),
{
    if s.len() <= MAX_MESSAGE {
        let mut v: Vec<String> = Vec::new();
        push_part(&mut v, String::from_str(s));
        return v;
    }
    let mut out: Vec<String> = Vec::new();
    let mut cur = String::new();
    let mut line = String::new();
    let mut pending_cr = false;
    let ghost mut done: Seq<Seq<char>> = Seq::empty();
    let ghost mut before: Seq<char> = Seq::empty();
    for c in it: s.chars()
        invariant
            it.seq() == s@,
            blen(s@) <= usize::MAX,
            blen(s@) > MAX_MESSAGE,
            scan_lines(s@.take(it.index() as int)) == (done, line@ + (if pending_cr { seq!['\r'] } else { Seq::empty() })),
            !pending_cr ==> line@.len() == 0 || line@.last() != '\r',
            s@.take(it.index() as int) == before + line@ + (if pending_cr { seq!['\r'] } else { Seq::<char>::empty() }),
            pack(done) == (strings_bytes(out@), encode_utf8(cur@)),
            blen(cur@) <= MAX_MESSAGE,
            all_fit(strings_bytes(out@)),
    {
        let ghost idx = it.index() as int;
        assert(s@.take(idx + 1).drop_last() =~= s@.take(idx));
        assert(s@.take(idx + 1).last() == c);
        if c == '\n' {
            proof {
                prefix_blen(s@, idx);
                encode_utf8_concat(before, line@ + (if pending_cr { seq!['\r'] } else { Seq::<char>::empty() }));
                encode_utf8_concat(line@, (if pending_cr { seq!['\r'] } else { Seq::<char>::empty() }));
                assert(before + line@ + (if pending_cr { seq!['\r'] } else { Seq::<char>::empty() })
                    =~= before + (line@ + (if pending_cr { seq!['\r'] } else { Seq::<char>::empty() })));
                if pending_cr {
                    assert((line@ + seq!['\r']).drop_last() =~= line@);
                } else {
                    assert(line@ + Seq::<char>::empty() =~= line@);
                }
            }
            push_line(&mut out, &mut cur, &line);
            proof {
                before = before + line@ + (if pending_cr { seq!['\r'] } else { Seq::<char>::empty() }) + seq!['\n'];
                assert(done.push(line@).drop_last() =~= done);
                done = done.push(line@);
            }
            line = String::new();
            pending_cr = false;
            assert(s@.take(idx + 1) =~= before + line@ + Seq::<char>::empty());
            assert(line@ + Seq::<char>::empty() =~= Seq::<char>::empty());
        } else if c == '\r' {
            if pending_cr {
                push_char(&mut line, '\r');
                assert(line@.drop_last() + seq!['\r'] + seq!['\r'] =~= line@ + seq!['\r']);
            }
            pending_cr = true;
            assert(s@.take(idx + 1) =~= before + line@ + seq!['\r']);
        } else {
            if pending_cr {
                push_char(&mut line, '\r');
            }
            push_char(&mut line, c);
            pending_cr = false;
            assert(s@.take(idx + 1) =~= before + line@ + Seq::<char>::empty());
            assert(line@ + Seq::<char>::empty() =~= line@);
        }
    }
    assert(s@.take(s@.len() as int) =~= s@);
    if pending_cr {
        push_char(&mut line, '\r');
    }
    assert(s@ =~= before + line@);
    assert(scan_lines(s@) == (done, line@)) by {
        if !pending_cr {
            assert(line@ + Seq::<char>::empty() =~= line@);
        }
    }
    if !line.as_str().is_empty() {
        proof {
            encode_utf8_concat(before, line@);
            assert(done.push(line@).drop_last() =~= done);
        }
        push_line(&mut out, &mut cur, &line);
    }
    if cur.as_str().len() > 0 {
        push_part(&mut out, cur);
    }
    out
}

/// The lines of a string, as `lines_spec` says.
pub fn lines_of(s: &str) -> (v: Vec<String>)
    ensures
        v@.len() == lines_spec(s@).len(),
        forall|i: int| 0 <= i < v@.len() ==> (#[trigger] v@[i])@ == lines_spec(s@)[i],
{
    let mut out: Vec<String> = Vec::new();
    let mut line = String::new();
    let mut pending_cr = false;
    let ghost mut done: Seq<Seq<char>> = Seq::empty();
    for c in it: s.chars()
        invariant
            it.seq() == s@,
            scan_lines(s@.take(it.index() as int)) == (done, line@ + (if pending_cr { seq!['\r'] } else { Seq::empty() })),
            !pending_cr ==> line@.len() == 0 || line@.last() != '\r',
            out@.len() == done.len(),
            forall|i: int| 0 <= i < out@.len() ==> (#[trigger] out@[i])@ == done[i],
    {
        let ghost idx = it.index() as int;
        assert(s@.take(idx + 1).drop_last() =~= s@.take(idx));
        assert(s@.take(idx + 1).last() == c);
        if c == '\n' {
            proof {
                if pending_cr {
                    assert((line@ + seq!['\r']).drop_last() =~= line@);
                } else {
                    assert(line@ + Seq::<char>::empty() =~= line@);
                }
                done = done.push(line@);
            }
            let mut taken = String::new();
            std::mem::swap(&mut taken, &mut line);
            out.push(taken);
            pending_cr = false;
            assert(line@ + Seq::<char>::empty() =~= Seq::<char>::empty());
        } else if c == '\r' {
            if pending_cr {
                push_char(&mut line, '\r');
                assert(line@.drop_last() + seq!['\r'] + seq!['\r'] =~= line@ + seq!['\r']);
            }
            pending_cr = true;
        } else {
            if pending_cr {
                push_char(&mut line, '\r');
            }
            push_char(&mut line, c);
            pending_cr = false;
            assert(line@ + Seq::<char>::empty() =~= line@);
        }
    }
    assert(s@.take(s@.len() as int) =~= s@);
    if pending_cr {
        push_char(&mut line, '\r');
    }
    assert(scan_lines(s@) == (done, line@)) by {
        if !pending_cr {
            assert(line@ + Seq::<char>::empty() =~= line@);
        }
    }
    if !line.as_str().is_empty() {
        out.push(line);
    }
    out
}

/// The characters of a string, in a vector.
pub fn chars_of(s: &str) -> (v: Vec<char>)
    ensures
        v@ == s@,
{
    let mut v: Vec<char> = Vec::new();
    for c in it: s.chars()
        invariant
            it.seq() == s@,
            v@ == s@.take(it.index() as int),
    {
        v.push(c);
        assert(v@ =~= s@.take(it.index() + 1));
    }
    assert(s@.take(s@.len() as int) =~= s@);
    v
}

/// The bytes of a list of messages, one after another.
pub open spec fn flatten(parts: Seq<Seq<u8>>) -> Seq<u8>
    decreases parts.len(),
{
    if parts.len() == 0 { Seq::empty() } else { flatten(parts.drop_last()) + parts.last() }
}

/// The bytes of lines, each followed by a newline.
pub open spec fn joined(lines: Seq<Seq<char>>) -> Seq<u8>
    decreases lines.len(),
{
    if lines.len() == 0 { Seq::empty() } else { joined(lines.drop_last()) + encode_utf8(lines.last()).push(10u8) }
}

/// Packing lines that each fit keeps every byte, in order: the finished messages and the
/// one being filled are the lines with their newlines.
proof fn pack_keeps_every_line(lines: Seq<Seq<char>>)
    requires
        forall|i: int| 0 <= i < lines.len() ==> blen(#[trigger] lines[i]) < MAX_MESSAGE,
    ensures
        flatten(pack(lines).0) + pack(lines).1 == joined(lines),
    decreases lines.len(),
{
    if lines.len() > 0 {
        let prev = lines.drop_last();
        assert forall|i: int| 0 <= i < prev.len() implies blen(#[trigger] prev[i]) < MAX_MESSAGE by {
            assert(prev[i] == lines[i]);
        }
        pack_keeps_every_line(prev);
        let st = pack(prev);
        let lb = encode_utf8(lines.last());
        assert(blen(lines[lines.len() - 1]) < MAX_MESSAGE);
        if st.1.len() + lb.len() + 1 > MAX_MESSAGE {
            assert(st.0.push(st.1).drop_last() =~= st.0);
            assert(flatten(st.0.push(st.1)) + lb.push(10u8) =~= flatten(st.0) + st.1 + lb.push(10u8));
        } else {
            assert(flatten(st.0) + (st.1 + lb.push(10u8)) =~= flatten(st.0) + st.1 + lb.push(10u8));
        }
    }
}

/// Splitting a long report loses nothing when no line alone reaches the cap: the messages,
/// one after another, are exactly its lines, each followed by a newline.
pub proof fn splitting_keeps_every_line(s: Seq<char>)
    requires
        blen(s) > MAX_MESSAGE,
        forall|i: int| 0 <= i < lines_spec(s).len() ==> blen(#[trigger] lines_spec(s)[i]) < MAX_MESSAGE,
    ensures
        flatten(split_spec(s)) == joined(lines_spec(s)),
{
    let ls = lines_spec(s);
    pack_keeps_every_line(ls);
    let st = pack(ls);
    if st.1.len() > 0 {
        assert(st.0.push(st.1).drop_last() =~= st.0);
    } else {
        assert(flatten(st.0) + st.1 =~= flatten(st.0));
    }
}

/// One inbound update, narrowed to what the bot acts on.
#[derive(Debug, Clone)]
pub struct Update {
    pub update_id: i64,
    pub kind: UpdateKind,
}

/// What an update carries.
#[derive(Debug, Clone)]
pub enum UpdateKind {
    /// A text message. `user_id` is the sender; `chat_id` is where to reply.
    Message { chat_id: i64, user_id: i64, username: String, text: String },
    /// An inline-keyboard press, carrying the button's data, which this bot writes.
    Callback { chat_id: i64, user_id: i64, username: String, callback_id: String, message_id: i64, data: String },
    /// Anything else. Skipped, but it still consumes its update id, so an update the bot
    /// cannot act on is not fetched again forever.
    Other,
}

/// The polling offset after taking an update: past that update, and never backwards.
/// It moves before the update is acted on, so a command that crashes the bot is not
/// delivered again on restart.
pub fn next_offset(offset: i64, update_id: i64) -> (r: i64)
    requires
        update_id < i64::MAX,
    ensures
        r == (if offset >= update_id + 1 { offset as int } else { update_id + 1 }),
{
    let next = update_id + 1;
    if offset >= next { offset } else { next }
}

} // verus!
