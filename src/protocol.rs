use vstd::prelude::*;
use vstd::string::*;
use vstd::utf8::*;

verus! {

/// The byte that ends every message on the wire.
pub const SEPARATOR: u8 = 0x0a;

/// The digit of `d` (below 16) in lower-case hexadecimal.
pub open spec fn hex_digit(d: u32) -> char {
    seq!['0', '1', '2', '3', '4', '5', '6', '7', '8', '9', 'a', 'b', 'c', 'd', 'e', 'f'][d as int]
}

/// How one character stands inside a JSON string literal: the quote, the
/// backslash and the control characters are escaped, the rest stand as they are.
pub open spec fn json_escaped_char(c: char) -> Seq<char> {
    if c == '"' {
        seq!['\\', '"']
    } else if c == '\\' {
        seq!['\\', '\\']
    } else if c == '\x08' {
        seq!['\\', 'b']
    } else if c == '\t' {
        seq!['\\', 't']
    } else if c == '\n' {
        seq!['\\', 'n']
    } else if c == '\x0c' {
        seq!['\\', 'f']
    } else if c == '\r' {
        seq!['\\', 'r']
    } else if (c as u32) < 0x20 {
        seq!['\\', 'u', '0', '0', hex_digit((c as u32) / 16), hex_digit((c as u32) % 16)]
    } else {
        seq![c]
    }
}

/// The characters of `s` escaped one by one.
pub open spec fn json_escaped(s: Seq<char>) -> Seq<char>
    decreases s.len(),
{
    if s.len() == 0 {
        Seq::empty()
    } else {
        json_escaped(s.drop_last()) + json_escaped_char(s.last())
    }
}

/// `s` as a JSON string literal.
pub open spec fn json_string(s: Seq<char>) -> Seq<char> {
    seq!['"'] + json_escaped(s) + seq!['"']
}

/// The JSON object that carries a message.
pub open spec fn json_message(require_input: bool, content: Seq<char>) -> Seq<char> {
    "{\"require_input\":"@ + (if require_input {
        "true"@
    } else {
        "false"@
    }) + ",\"content\":"@ + json_string(content) + "}"@
}

/// No character of `s` is `c`.
pub open spec fn free_of(s: Seq<char>, c: char) -> bool {
    forall|i: int| 0 <= i < s.len() ==> s[i] != c
}

proof fn lemma_free_of_concat(a: Seq<char>, b: Seq<char>, c: char)
    requires
        free_of(a, c),
        free_of(b, c),
    ensures
        free_of(a + b, c),
{
    assert forall|i: int| 0 <= i < (a + b).len() implies (a + b)[i] != c by {
        if i >= a.len() {
            assert((a + b)[i] == b[i - a.len()]);
        }
    }
}

proof fn lemma_escaped_free_of_newline(s: Seq<char>)
    ensures
        free_of(json_escaped(s), '\n'),
    decreases s.len(),
{
    if s.len() > 0 {
        lemma_escaped_free_of_newline(s.drop_last());
        let c = s.last();
        let e = json_escaped_char(c);
        if c != '"' && c != '\\' && c != '\x08' && c != '\t' && c != '\n' && c != '\x0c' && c != '\r' && (c
            as u32) < 0x20 {
            let hi = (c as u32) / 16;
            let lo = (c as u32) % 16;
            let digits = seq!['0', '1', '2', '3', '4', '5', '6', '7', '8', '9', 'a', 'b', 'c', 'd', 'e', 'f'];
            assert(digits[hi as int] != '\n');
            assert(digits[lo as int] != '\n');
        }
        assert(free_of(e, '\n'));
        lemma_free_of_concat(json_escaped(s.drop_last()), e, '\n');
    }
}

proof fn lemma_high_bytes(y: u8)
    ensures
        (0x80u8 | y) != 10u8,
        (0xC0u8 | y) != 10u8,
        (0xE0u8 | y) != 10u8,
        (0xF0u8 | y) != 10u8,
{
    assert((0x80u8 | y) != 10u8) by (bit_vector);
    assert((0xC0u8 | y) != 10u8) by (bit_vector);
    assert((0xE0u8 | y) != 10u8) by (bit_vector);
    assert((0xF0u8 | y) != 10u8) by (bit_vector);
}

/// UTF-8 writes the byte 0x0A only for the character `\n`.
proof fn lemma_utf8_free_of_newline(s: Seq<char>)
    requires
        free_of(s, '\n'),
    ensures
        forall|i: int| 0 <= i < encode_utf8(s).len() ==> encode_utf8(s)[i] != SEPARATOR,
    decreases s.len(),
{
    if s.len() > 0 {
        let rest = s.drop_first();
        assert(free_of(rest, '\n')) by {
            assert forall|i: int| 0 <= i < rest.len() implies rest[i] != '\n' by {
                assert(rest[i] == s[i + 1]);
            }
        }
        lemma_utf8_free_of_newline(rest);
        let v = s[0] as u32;
        char_is_scalar(s[0]);
        char_u32_cast(s[0], v);
        char_u32_cast('\n', '\n' as u32);
        assert('\n' as u32 == 10);
        assert(v != 10);
        let head = encode_scalar(v);
        assert forall|i: int| 0 <= i < head.len() implies head[i] != SEPARATOR by {
            if has_width_1_encoding(v) {
                assert(v <= 0x7F ==> v & 0x7F == v) by (bit_vector);
            } else {
                lemma_high_bytes(((v >> 6) & 0x1F) as u8);
                lemma_high_bytes(((v >> 12) & 0x0F) as u8);
                lemma_high_bytes(((v >> 18) & 0x07) as u8);
                lemma_high_bytes((v & 0x3F) as u8);
                lemma_high_bytes(((v >> 6) & 0x3F) as u8);
                lemma_high_bytes(((v >> 12) & 0x3F) as u8);
            }
        }
        let all = encode_utf8(s);
        assert(all == head + encode_utf8(rest));
        assert forall|i: int| 0 <= i < all.len() implies all[i] != SEPARATOR by {
            if i >= head.len() {
                assert(all[i] == encode_utf8(rest)[i - head.len()]);
            }
        }
    }
}

/// A frame holds the separator only as its last byte: JSON escapes the
/// line feed inside strings, and UTF-8 writes the byte 0x0A for nothing
/// else. So reading up to the first separator gets back the whole message.
pub proof fn lemma_frame_separator_only_at_end(require_input: bool, content: Seq<char>)
    ensures
        ({
            let frame = encode_utf8(json_message(require_input, content)).push(SEPARATOR);
            &&& frame.last() == SEPARATOR
            &&& forall|i: int| 0 <= i < frame.len() - 1 ==> frame[i] != SEPARATOR
        }),
{
    reveal_strlit("{\"require_input\":");
    reveal_strlit("true");
    reveal_strlit("false");
    reveal_strlit(",\"content\":");
    reveal_strlit("}");
    lemma_escaped_free_of_newline(content);
    let flag = if require_input {
        "true"@
    } else {
        "false"@
    };
    let a = "{\"require_input\":"@;
    assert(free_of(a, '\n'));
    assert(free_of(flag, '\n'));
    assert(free_of(",\"content\":"@, '\n'));
    assert(free_of("}"@, '\n'));
    assert(free_of(seq!['"'], '\n'));
    lemma_free_of_concat(seq!['"'], json_escaped(content), '\n');
    lemma_free_of_concat(seq!['"'] + json_escaped(content), seq!['"'], '\n');
    lemma_free_of_concat(a, flag, '\n');
    lemma_free_of_concat(a + flag, ",\"content\":"@, '\n');
    lemma_free_of_concat(a + flag + ",\"content\":"@, json_string(content), '\n');
    lemma_free_of_concat(a + flag + ",\"content\":"@ + json_string(content), "}"@, '\n');
    lemma_utf8_free_of_newline(json_message(require_input, content));
    let body = encode_utf8(json_message(require_input, content));
    let frame = body.push(SEPARATOR);
    assert forall|i: int| 0 <= i < frame.len() - 1 implies frame[i] != SEPARATOR by {
        assert(frame[i] == body[i]);
    }
}

/// Relies on serde_json's `to_string` on a `str`, which writes a string
/// literal in which only `"`, `\` and the characters below U+0020 are escaped
/// (the short escapes `\b \t \n \f \r` where JSON has them, else `\u00xx`
/// in lower-case hexadecimal). Writing into memory cannot fail.
#[verifier::external_body]
fn quote_json(s: &str) -> (r: String)
    ensures
        r@ == json_string(s@),
{
    match serde_json::to_string(s) {
        Ok(t) => t,
        Err(_) => String::new(),
    }
}

/// A message between the game and the predictor: some text, and whether
/// the receiver must answer with one message before the sender goes on.
pub struct Data {
    pub require_input: bool,
    pub content: String,
}

impl Data {
    pub fn new(require_input: bool, content: String) -> (r: Data)
        ensures
            r.require_input == require_input,
            r.content@ == content@,
    {
        Data { require_input, content }
    }

    pub fn require_input(&self) -> (r: bool)
        ensures
            r == self.require_input,
    {
        self.require_input
    }

    pub fn content(&self) -> (r: &str)
        ensures
            r@ == self.content@,
    {
        self.content.as_str()
    }

    /// The message as a JSON object `{"require_input":..,"content":..}`.
    pub fn to_json(&self) -> (r: String)
        ensures
            r@ == json_message(self.require_input, self.content@),
    {
        let mut r = String::from_str("{\"require_input\":");
        if self.require_input {
            r.append("true");
        } else {
            r.append("false");
        }
        r.append(",\"content\":");
        let quoted = quote_json(self.content.as_str());
        r.append(quoted.as_str());
        r.append("}");
        r
    }

    /// The bytes that carry the message on the wire: its JSON text in UTF-8,
    /// then the separator.
    pub fn frame(&self) -> (r: Vec<u8>)
        ensures
            r@ == encode_utf8(json_message(self.require_input, self.content@)).push(SEPARATOR),
    {
        let json = self.to_json();
        let mut bytes = json.as_str().as_bytes_vec();
        bytes.push(SEPARATOR);
        bytes
    }
}

/// Gathers the bytes of incoming messages, one byte at a time.
pub struct FrameReader {
    /// The bytes of the message being received, without its separator.
    pub pending: Vec<u8>,
}

impl FrameReader {
    pub fn new() -> (r: FrameReader)
        ensures
            r.pending@ == Seq::<u8>::empty(),
    {
        FrameReader { pending: Vec::new() }
    }

    /// Takes the next byte. The separator completes the message, which is
    /// handed out and forgotten; any other byte is kept.
    pub fn push(&mut self, byte: u8) -> (r: Option<Vec<u8>>)
        ensures
            byte == SEPARATOR ==> (r matches Some(message) && message@ == old(self).pending@)
                && final(self).pending@ == Seq::<u8>::empty(),
            byte != SEPARATOR ==> r is None && final(self).pending@ == old(self).pending@.push(byte),
    {
        if byte == SEPARATOR {
            let mut message: Vec<u8> = Vec::new();
            std::mem::swap(&mut message, &mut self.pending);
            Some(message)
        } else {
            self.pending.push(byte);
            None
        }
    }
}

} // verus!
