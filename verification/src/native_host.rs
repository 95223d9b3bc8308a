use vstd::prelude::*;

verus! {

/// The number that four bytes hold in little-endian order.
pub open spec fn le_u32(b: Seq<u8>) -> int {
    b[0] + 256 * b[1] + 65536 * b[2] + 16777216 * b[3]
}

/// The payload length of a native-messaging frame: its first four bytes, a
/// little-endian `u32`.
pub fn frame_length(header: [u8; 4]) -> (len: u32)
    ensures
        len == le_u32(header@),
{
    let b0 = header[0] as u32;
    let b1 = header[1] as u32;
    let b2 = header[2] as u32;
    let b3 = header[3] as u32;
    b0 + 256 * b1 + 65536 * b2 + 16777216 * b3
}

/// The lower-case hexadecimal digit of `n` (below 16).
pub open spec fn hex_digit(n: int) -> char {
    "0123456789abcdef"@[n]
}

/// How a character is written inside a JSON string: `"` and `\` escaped,
/// control characters below U+0020 as `\b`, `\t`, `\n`, `\f`, `\r` or
/// `\u00XX`, every other character as itself.
pub open spec fn json_escape(c: char) -> Seq<char> {
    if c == '"' {
        seq!['\\', '"']
    } else if c == '\\' {
        seq!['\\', '\\']
    } else if c == '\n' {
        seq!['\\', 'n']
    } else if c == '\r' {
        seq!['\\', 'r']
    } else if c == '\t' {
        seq!['\\', 't']
    } else if c == '\x08' {
        seq!['\\', 'b']
    } else if c == '\x0c' {
        seq!['\\', 'f']
    } else if (c as u32) < 0x20 {
        seq!['\\', 'u', '0', '0', hex_digit(((c as u32) / 16) as int), hex_digit(((c as u32) % 16) as int)]
    } else {
        seq![c]
    }
}

/// The characters of `s`, each written as inside a JSON string.
pub open spec fn json_escaped(s: Seq<char>) -> Seq<char>
    decreases s.len(),
{
    if s.len() == 0 {
        Seq::empty()
    } else {
        json_escaped(s.drop_last()) + json_escape(s.last())
    }
}

/// `s` as a JSON string literal.
pub open spec fn json_string(s: Seq<char>) -> Seq<char> {
    seq!['"'] + json_escaped(s) + seq!['"']
}

fn hex_str(n: u32) -> (r: &'static str)
    requires
        n < 16,
    ensures
        r@ == seq![hex_digit(n as int)],
{
    proof {
        reveal_strlit("0123456789abcdef");
    }
    let digits = "0123456789abcdef";
    let d = digits.substring_char(n as usize, n as usize + 1);
    assert(d@ =~= seq![hex_digit(n as int)]);
    d
}

/// Appends `c`, the character at `i` of `text`, as written inside a JSON
/// string.
fn append_json_char(line: &mut String, text: &str, i: usize, c: char)
    requires
        i < text@.len() <= usize::MAX,
        text@[i as int] == c,
    ensures
        final(line)@ == old(line)@ + json_escape(c),
{
    if c == '"' {
        proof {
            reveal_strlit("\\\"");
        }
        line.append("\\\"");
        assert(line@ =~= old(line)@ + json_escape(c));
    } else if c == '\\' {
        proof {
            reveal_strlit("\\\\");
        }
        line.append("\\\\");
        assert(line@ =~= old(line)@ + json_escape(c));
    } else if c == '\n' {
        proof {
            reveal_strlit("\\n");
        }
        line.append("\\n");
        assert(line@ =~= old(line)@ + json_escape(c));
    } else if c == '\r' {
        proof {
            reveal_strlit("\\r");
        }
        line.append("\\r");
        assert(line@ =~= old(line)@ + json_escape(c));
    } else if c == '\t' {
        proof {
            reveal_strlit("\\t");
        }
        line.append("\\t");
        assert(line@ =~= old(line)@ + json_escape(c));
    } else if c == '\x08' {
        proof {
            reveal_strlit("\\b");
        }
        line.append("\\b");
        assert(line@ =~= old(line)@ + json_escape(c));
    } else if c == '\x0c' {
        proof {
            reveal_strlit("\\f");
        }
        line.append("\\f");
        assert(line@ =~= old(line)@ + json_escape(c));
    } else if (c as u32) < 0x20 {
        proof {
            reveal_strlit("\\u00");
        }
        let code = c as u32;
        line.append("\\u00");
        line.append(hex_str(code / 16));
        line.append(hex_str(code % 16));
        assert(line@ =~= old(line)@ + json_escape(c));
    } else {
        line.append(text.substring_char(i, i + 1));
        assert(line@ =~= old(line)@ + json_escape(c));
    }
}

/// The line forwarded to the app for a tab's `domain`: the JSON object
/// `{"domain":...}` with the domain as a JSON string, then a newline.
pub fn bridge_line(domain: &str) -> (line: String)
    ensures
        line@ == "{\"domain\":"@ + json_string(domain@) + "}\n"@,
{
    proof {
        reveal_strlit("\"");
    }
    let mut line = String::from_str("{\"domain\":");
    line.append("\"");
    let ghost head = "{\"domain\":"@ + seq!['"'];
    assert(line@ =~= head);
    let n = domain.unicode_len();
    let mut i: usize = 0;
    assert(domain@.take(0) =~= Seq::<char>::empty());
    while i < n
        invariant
            n == domain@.len(),
            i <= n,
            head == "{\"domain\":"@ + seq!['"'],
            line@ =~= head + json_escaped(domain@.take(i as int)),
        decreases n - i,
    {
        let c = domain.get_char(i);
        append_json_char(&mut line, domain, i, c);
        proof {
            assert(domain@.take(i + 1).drop_last() =~= domain@.take(i as int));
            assert(domain@.take(i + 1).last() == c);
        }
        i = i + 1;
    }
    assert(domain@.take(n as int) =~= domain@);
    line.append("\"");
    line.append("}\n");
    assert(line@ =~= "{\"domain\":"@ + json_string(domain@) + "}\n"@);
    line
}

} // verus!
