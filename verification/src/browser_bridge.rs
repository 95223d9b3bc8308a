use vstd::prelude::*;

verus! {

/// Fixed localhost port on which the app listens for the domain lines that
/// the native-messaging host forwards.
pub const BRIDGE_PORT: u16 = 47821;

/// The characters with the Unicode `White_Space` property, those for which
/// `char::is_whitespace` holds: U+0009 to U+000D, U+0020, U+0085, U+00A0,
/// U+1680, U+2000 to U+200A, U+2028, U+2029, U+202F, U+205F and U+3000.
pub open spec fn white_space(c: char) -> bool {
    let u = c as u32;
    ||| 0x09 <= u <= 0x0d
    ||| u == 0x20
    ||| u == 0x85
    ||| u == 0xa0
    ||| u == 0x1680
    ||| 0x2000 <= u <= 0x200a
    ||| u == 0x2028
    ||| u == 0x2029
    ||| u == 0x202f
    ||| u == 0x205f
    ||| u == 0x3000
}

/// Whether a character is Unicode white space.
pub fn is_white_space(c: char) -> (r: bool)
    ensures
        r == white_space(c),
{
    let u = c as u32;
    (0x09 <= u && u <= 0x0d) || u == 0x20 || u == 0x85 || u == 0xa0 || u == 0x1680 || (0x2000 <= u && u
        <= 0x200a) || u == 0x2028 || u == 0x2029 || u == 0x202f || u == 0x205f || u == 0x3000
}

/// A line of only whitespace: `line.trim()` (which strips `White_Space` from
/// both ends) leaves nothing of it.
pub open spec fn blank(line: Seq<char>) -> bool {
    forall|i: int| 0 <= i < line.len() ==> #[trigger] white_space(line[i])
}

/// Whether a line received from the native host is blank and is skipped.
pub fn is_blank_line(line: &str) -> (r: bool)
    ensures
        r == blank(line@),
{
    let n = line.unicode_len();
    let mut i: usize = 0;
    while i < n
        invariant
            n == line@.len(),
            i <= n,
            forall|j: int| 0 <= j < i ==> #[trigger] white_space(line@[j]),
        decreases n - i,
    {
        if !is_white_space(line.get_char(i)) {
            return false;
        }
        i = i + 1;
    }
    true
}

} // verus!
