//! Log entries and the line that the log sink appends for each of them.
use vstd::prelude::*;

verus! {

/// A hexadecimal digit, in lower case.
pub open spec fn hex_digit(n: u32) -> char {
    seq!['0', '1', '2', '3', '4', '5', '6', '7', '8', '9', 'a', 'b', 'c', 'd', 'e', 'f'][n as int]
}

/// How serde_json writes one character inside a string: a quote, a
/// backslash and the five common control characters get a two-character
/// escape, the other characters below U+0020 become `\u00XX`, and every
/// other character stands for itself.
pub open spec fn json_escape(c: char) -> Seq<char> {
    if c == '"' {
        seq!['\\', '"']
    } else if c == '\\' {
        seq!['\\', '\\']
    } else if c == '\x08' {
        seq!['\\', 'b']
    } else if c == '\t' {
        seq!['\\', 't']
    } else if c == '\n' {
        seq!['\\', 'n']
    } else if c == '\x0c' {
        seq!['\\', 'f']
    } else if c == '\r' {
        seq!['\\', 'r']
    } else if (c as u32) < 0x20 {
        seq!['\\', 'u', '0', '0', hex_digit((c as u32) / 16), hex_digit((c as u32) % 16)]
    } else {
        seq![c]
    }
}

/// Each character of `s` escaped, in order.
pub open spec fn json_escaped(s: Seq<char>) -> Seq<char>
    decreases s.len(),
{
    if s.len() == 0 {
        seq![]
    } else {
        json_escape(s[0]) + json_escaped(s.subrange(1, s.len() as int))
    }
}

/// What serde_json writes for a string: the escaped characters in quotes.
pub open spec fn json_string_of(s: Seq<char>) -> Seq<char> {
    seq!['"'] + json_escaped(s) + seq!['"']
}

/// What chrono writes for an instant in RFC 3339 form, in UTC with a `Z`,
/// with as many fractional digits as the nanoseconds need (0, 3, 6 or 9).
pub uninterp spec fn rfc3339_utc_of(nanos: i64) -> Seq<char>;

/// Relies on `serde_json::to_string` for a `str`: it serializes through
/// `serialize_str` into a `Vec<u8>`, whose writes never fail, so the result
/// is always `Ok`; `format_escaped_str` puts the text in quotes and escapes
/// each byte by its `ESCAPE` table, which touches only bytes below 0x80, so
/// each character of a multi-byte encoding stands for itself.
#[verifier::external_body]
fn json_string(s: &str) -> (r: String)
    ensures
        r@ == json_string_of(s@),
{
    match serde_json::to_string(s) {
        Ok(t) => t,
        Err(_) => String::new(),
    }
}

/// Relies on `chrono::DateTime::to_rfc3339_opts` with `SecondsFormat::AutoSi`
/// and `use_z`, the form that chrono's `Serialize` for `DateTime` writes;
/// `DateTime::from_timestamp_nanos` only converts, and every `i64` is in range.
#[verifier::external_body]
fn rfc3339_utc(nanos: i64) -> (r: String)
    ensures
        r@ == rfc3339_utc_of(nanos),
{
    chrono::DateTime::from_timestamp_nanos(nanos).to_rfc3339_opts(chrono::SecondsFormat::AutoSi, true)
}

/// One record of the log: a message that the caller delivered or removed,
/// and when, in nanoseconds since the Unix epoch (UTC).
#[derive(Debug, Clone, PartialEq, Eq)]
pub struct LogEntry {
    pub msg: String,
    pub is_delete: bool,
    pub ts: i64,
}

pub open spec fn bool_literal(b: bool) -> Seq<char> {
    if b {
        "true"@
    } else {
        "false"@
    }
}

/// The line for a record: one JSON object with the fields `msg`,
/// `is_delete` and `ts`, in that order, and a newline.
pub open spec fn log_line_of(msg: Seq<char>, is_delete: bool, ts: i64) -> Seq<char> {
    "{\"msg\":"@ + json_string_of(msg) + ",\"is_delete\":"@ + bool_literal(is_delete)
        + ",\"ts\":"@ + json_string_of(rfc3339_utc_of(ts)) + "}\n"@
}

impl LogEntry {
    pub open spec fn spec_line(&self) -> Seq<char> {
        log_line_of(self.msg@, self.is_delete, self.ts)
    }

    /// The line that the log sink appends for this record.
    pub fn to_line(&self) -> (r: String)
        ensures
            r@ == self.spec_line(),
    {
        let msg = json_string(self.msg.as_str());
        let stamp = rfc3339_utc(self.ts);
        let ts = json_string(stamp.as_str());
        let mut line = String::from_str("{\"msg\":");
        line.append(msg.as_str());
        line.append(",\"is_delete\":");
        if self.is_delete {
            line.append("true");
        } else {
            line.append("false");
        }
        line.append(",\"ts\":");
        line.append(ts.as_str());
        line.append("}\n");
        line
    }
}

/// The value of a hexadecimal digit, if `c` is one.
pub open spec fn hex_value(c: char) -> Option<u32> {
    if '0' <= c && c <= '9' {
        Some((c as u32 - '0' as u32) as u32)
    } else if 'a' <= c && c <= 'f' {
        Some((c as u32 - 'a' as u32 + 10) as u32)
    } else if 'A' <= c && c <= 'F' {
        Some((c as u32 - 'A' as u32 + 10) as u32)
    } else {
        None
    }
}

/// The code of a character.
pub open spec fn code(c: char) -> u32 {
    c as u32
}

/// The character with code `v`.
pub open spec fn char_of(v: u32) -> char {
    choose|c: char| #[trigger] code(c) == v
}

/// Reads one character of a JSON string's contents from the front of `t`:
/// the character and how many characters of `t` it took, or `None` at the
/// closing quote or at a malformed escape.
pub open spec fn json_read_char(t: Seq<char>) -> Option<(char, int)> {
    if t.len() == 0 || t[0] == '"' {
        None
    } else if t[0] != '\\' {
        Some((t[0], 1))
    } else if t.len() < 2 {
        None
    } else if t[1] == '"' {
        Some(('"', 2))
    } else if t[1] == '\\' {
        Some(('\\', 2))
    } else if t[1] == '/' {
        Some(('/', 2))
    } else if t[1] == 'b' {
        Some(('\x08', 2))
    } else if t[1] == 't' {
        Some(('\t', 2))
    } else if t[1] == 'n' {
        Some(('\n', 2))
    } else if t[1] == 'f' {
        Some(('\x0c', 2))
    } else if t[1] == 'r' {
        Some(('\r', 2))
    } else if t[1] == 'u' && t.len() >= 6 && hex_value(t[2]) is Some && hex_value(t[3]) is Some
        && hex_value(t[4]) is Some && hex_value(t[5]) is Some {
        Some(
            (
                char_of(
                    (hex_value(t[2])->Some_0 * 4096 + hex_value(t[3])->Some_0 * 256 + hex_value(
                        t[4],
                    )->Some_0 * 16 + hex_value(t[5])->Some_0) as u32,
                ),
                6,
            ),
        )
    } else {
        None
    }
}

/// Reads the contents of a JSON string up to its closing quote: the text
/// and what follows the quote.
pub open spec fn json_read_contents(t: Seq<char>) -> Option<(Seq<char>, Seq<char>)>
    decreases t.len(),
{
    if t.len() > 0 && t[0] == '"' {
        Some((seq![], t.subrange(1, t.len() as int)))
    } else {
        match json_read_char(t) {
            Some((c, n)) => if 1 <= n <= t.len() {
                match json_read_contents(t.subrange(n, t.len() as int)) {
                    Some((d, r)) => Some((seq![c] + d, r)),
                    None => None,
                }
            } else {
                None
            },
            None => None,
        }
    }
}

/// What follows the prefix `p` of `t`, if `t` starts with it.
pub open spec fn after(t: Seq<char>, p: Seq<char>) -> Option<Seq<char>> {
    if p.len() <= t.len() && t.subrange(0, p.len() as int) == p {
        Some(t.subrange(p.len() as int, t.len() as int))
    } else {
        None
    }
}

/// Reads a JSON string: its text and what follows it.
pub open spec fn json_read_string(t: Seq<char>) -> Option<(Seq<char>, Seq<char>)> {
    match after(t, seq!['"']) {
        Some(u) => json_read_contents(u),
        None => None,
    }
}

pub open spec fn json_read_bool(t: Seq<char>) -> Option<(bool, Seq<char>)> {
    match after(t, "true"@) {
        Some(u) => Some((true, u)),
        None => match after(t, "false"@) {
            Some(u) => Some((false, u)),
            None => None,
        },
    }
}

/// Reads a log line back: the message, the deletion flag and the written
/// timestamp.
pub open spec fn parse_log_line(line: Seq<char>) -> Option<(Seq<char>, bool, Seq<char>)> {
    match after(line, "{\"msg\":"@) {
        None => None,
        Some(a) => match json_read_string(a) {
            None => None,
            Some((msg, b)) => match after(b, ",\"is_delete\":"@) {
                None => None,
                Some(c) => match json_read_bool(c) {
                    None => None,
                    Some((is_delete, d)) => match after(d, ",\"ts\":"@) {
                        None => None,
                        Some(e) => match json_read_string(e) {
                            None => None,
                            Some((ts, f)) => if f == "}\n"@ {
                                Some((msg, is_delete, ts))
                            } else {
                                None
                            },
                        },
                    },
                },
            },
        },
    }
}

proof fn lemma_after_prefix(p: Seq<char>, x: Seq<char>)
    ensures
        after(p + x, p) == Some(x),
{
    assert((p + x).subrange(0, p.len() as int) =~= p);
    assert((p + x).subrange(p.len() as int, (p + x).len() as int) =~= x);
}

proof fn lemma_char_of(c: char)
    ensures
        char_of(c as u32) == c,
{
    assert(code(c) == c as u32);
    let d = char_of(c as u32);
    assert(code(d) == c as u32);
}

proof fn lemma_hex_round_trip(n: u32)
    requires
        n < 16,
    ensures
        hex_value(hex_digit(n)) == Some(n),
{
}

proof fn lemma_read_escape(c: char, u: Seq<char>)
    ensures
        json_read_char(json_escape(c) + u) == Some((c, json_escape(c).len() as int)),
        json_escape(c).len() >= 1,
{
    let t = json_escape(c) + u;
    if (c as u32) < 0x20 && c != '\x08' && c != '\t' && c != '\n' && c != '\x0c' && c != '\r' {
        let v = c as u32;
        lemma_hex_round_trip(v / 16);
        lemma_hex_round_trip(v % 16);
        lemma_hex_round_trip(0);
        assert(t[2] == '0' && t[3] == '0');
        assert(t[4] == hex_digit(v / 16));
        assert(t[5] == hex_digit(v % 16));
        assert((0u32 * 4096 + 0u32 * 256 + (v / 16) * 16 + v % 16) as u32 == v);
        lemma_char_of(c);
    }
}

proof fn lemma_read_contents(s: Seq<char>, rest: Seq<char>)
    ensures
        json_read_contents(json_escaped(s) + seq!['"'] + rest) == Some((s, rest)),
    decreases s.len(),
{
    let t = json_escaped(s) + seq!['"'] + rest;
    if s.len() == 0 {
        assert(json_escaped(s) =~= Seq::<char>::empty());
        assert(t[0] == '"');
        assert(t.subrange(1, t.len() as int) =~= rest);
    } else {
        let tail = s.subrange(1, s.len() as int);
        let e = json_escape(s[0]);
        let u = json_escaped(tail) + seq!['"'] + rest;
        assert(t =~= e + u);
        lemma_read_escape(s[0], u);
        assert(e[0] != '"');
        lemma_read_contents(tail, rest);
        assert((e + u).subrange(e.len() as int, (e + u).len() as int) =~= u);
        assert(seq![s[0]] + tail =~= s);
    }
}

proof fn lemma_read_string(s: Seq<char>, rest: Seq<char>)
    ensures
        json_read_string(json_string_of(s) + rest) == Some((s, rest)),
{
    assert(json_string_of(s) + rest =~= seq!['"'] + (json_escaped(s) + seq!['"'] + rest));
    lemma_after_prefix(seq!['"'], json_escaped(s) + seq!['"'] + rest);
    lemma_read_contents(s, rest);
}

/// A log line reads back as exactly the record it was written for: its
/// message, its deletion flag and the timestamp as written.
pub proof fn lemma_log_line_reads_back(msg: Seq<char>, is_delete: bool, ts: i64)
    ensures
        parse_log_line(log_line_of(msg, is_delete, ts)) == Some(
            (msg, is_delete, rfc3339_utc_of(ts)),
        ),
{
    reveal_strlit("true");
    reveal_strlit("false");
    let p1 = "{\"msg\":"@;
    let p2 = ",\"is_delete\":"@;
    let p3 = ",\"ts\":"@;
    let end = "}\n"@;
    let q1 = json_string_of(msg);
    let b = bool_literal(is_delete);
    let q2 = json_string_of(rfc3339_utc_of(ts));
    let line = log_line_of(msg, is_delete, ts);
    assert(line =~= p1 + (q1 + (p2 + (b + (p3 + (q2 + end))))));
    lemma_after_prefix(p1, q1 + (p2 + (b + (p3 + (q2 + end)))));
    lemma_read_string(msg, p2 + (b + (p3 + (q2 + end))));
    lemma_after_prefix(p2, b + (p3 + (q2 + end)));
    lemma_after_prefix(b, p3 + (q2 + end));
    if !is_delete {
        assert((b + (p3 + (q2 + end))).subrange(0, 4)[0] == 'f');
        assert("true"@[0] == 't');
    }
    lemma_after_prefix(p3, q2 + end);
    lemma_read_string(rfc3339_utc_of(ts), end);
}

proof fn lemma_escaped_one_line(s: Seq<char>)
    ensures
        forall|i: int| 0 <= i < json_escaped(s).len() ==> json_escaped(s)[i] != '\n',
    decreases s.len(),
{
    if s.len() > 0 {
        let tail = s.subrange(1, s.len() as int);
        lemma_escaped_one_line(tail);
        let e = json_escape(s[0]);
        assert forall|i: int| 0 <= i < e.len() implies e[i] != '\n' by {
            if (s[0] as u32) < 0x20 {
                assert((s[0] as u32) / 16 < 16);
            }
        }
        assert forall|i: int| 0 <= i < json_escaped(s).len() implies json_escaped(s)[i] != '\n' by {
            if i >= e.len() {
                assert(json_escaped(s)[i] == json_escaped(tail)[i - e.len()]);
            }
        }
    }
}

/// One record is one line: the line's only line break is its last
/// character, whatever the message holds.
pub proof fn lemma_log_line_is_one_line(msg: Seq<char>, is_delete: bool, ts: i64)
    ensures
        ({
            let line = log_line_of(msg, is_delete, ts);
            &&& line.len() > 0
            &&& line[line.len() - 1] == '\n'
            &&& forall|i: int| 0 <= i < line.len() - 1 ==> line[i] != '\n'
        }),
{
    reveal_strlit("{\"msg\":");
    reveal_strlit(",\"is_delete\":");
    reveal_strlit(",\"ts\":");
    reveal_strlit("}\n");
    reveal_strlit("true");
    reveal_strlit("false");
    lemma_escaped_one_line(msg);
    lemma_escaped_one_line(rfc3339_utc_of(ts));
    let line = log_line_of(msg, is_delete, ts);
    let q1 = json_string_of(msg);
    let q2 = json_string_of(rfc3339_utc_of(ts));
    assert forall|i: int| 0 <= i < q1.len() implies q1[i] != '\n' by {
        if 0 < i < q1.len() - 1 {
            assert(q1[i] == json_escaped(msg)[i - 1]);
        }
    }
    assert forall|i: int| 0 <= i < q2.len() implies q2[i] != '\n' by {
        if 0 < i < q2.len() - 1 {
            assert(q2[i] == json_escaped(rfc3339_utc_of(ts))[i - 1]);
        }
    }
    let body = "{\"msg\":"@ + q1 + ",\"is_delete\":"@ + bool_literal(is_delete) + ",\"ts\":"@ + q2;
    assert(line =~= body + "}\n"@);
    assert forall|i: int| 0 <= i < body.len() implies body[i] != '\n' by {}
    assert forall|i: int| 0 <= i < line.len() - 1 implies line[i] != '\n' by {
        if i < body.len() {
            assert(line[i] == body[i]);
        } else {
            assert(line[i] == '}');
        }
    }
}

} // verus!
