//! Numbers, padding and truncation in text.

use vstd::math::{max, min};
use vstd::prelude::*;

verus! {

/// `String::push` appends one character.
pub assume_specification[ String::push ](s: &mut String, c: char)
    ensures
        final(s)@ == old(s)@.push(c),
;

/// The character of a decimal digit.
pub open spec fn digit(d: nat) -> char {
    (48 + d) as char
}

/// A number in decimal notation.
pub open spec fn decimal(n: nat) -> Seq<char>
    decreases n,
{
    if n < 10 {
        seq![digit(n)]
    } else {
        decimal(n / 10).push(digit(n % 10))
    }
}

fn digit_char(d: u8) -> (c: char)
    requires
        d < 10,
    ensures
        c == digit(d as nat),
{
    match d {
        0 => '0',
        1 => '1',
        2 => '2',
        3 => '3',
        4 => '4',
        5 => '5',
        6 => '6',
        7 => '7',
        8 => '8',
        _ => '9',
    }
}

/// Appends a number in decimal notation.
pub fn push_decimal(s: &mut String, n: u128)
    ensures
        final(s)@ == old(s)@ + decimal(n as nat),
    decreases n,
{
    if n >= 10 {
        push_decimal(s, n / 10);
    }
    s.push(digit_char((n % 10) as u8));
    assert(s@ =~= old(s)@ + decimal(n as nat));
}

/// `n` spaces.
pub open spec fn spaces(n: int) -> Seq<char> {
    Seq::new(
        if n < 0 {
            0
        } else {
            n as nat
        },
        |i: int| ' ',
    )
}

/// Appends `n` spaces.
pub fn push_spaces(s: &mut String, n: usize)
    ensures
        final(s)@ == old(s)@ + spaces(n as int),
{
    let ghost before = s@;
    let mut i: usize = 0;
    proof {
        assert(s@ =~= before + spaces(0));
    }
    while i < n
        invariant
            i <= n,
            s@ == before + spaces(i as int),
        decreases n - i,
    {
        s.push(' ');
        proof {
            assert(s@ =~= before + spaces(i + 1));
        }
        i += 1;
    }
}

/// Text filled up with spaces to at least `width` characters.
pub open spec fn padded(text: Seq<char>, width: int) -> Seq<char> {
    text + spaces(width - text.len())
}

/// [`padded`], computed.
pub fn pad_right(text: &str, width: usize) -> (out: String)
    ensures
        out@ == padded(text@, width as int),
{
    let mut out = text.to_owned();
    let len: usize = text.unicode_len();
    if len < width {
        push_spaces(&mut out, width - len);
    } else {
        assert(out@ =~= padded(text@, width as int));
    }
    out
}

/// The first `n` characters of a text, or all of it if it is shorter.
pub open spec fn cut(text: Seq<char>, n: int) -> Seq<char> {
    if text.len() <= n {
        text
    } else {
        text.take(n)
    }
}

/// [`cut`], computed.
pub fn cut_to(text: &str, n: usize) -> (out: String)
    ensures
        out@ == cut(text@, n as int),
{
    if text.unicode_len() <= n {
        text.to_owned()
    } else {
        text.substring_char(0, n).to_owned()
    }
}

/// The characters that Unicode calls white space.
pub open spec fn is_white(c: char) -> bool {
    let u = c as u32;
    ||| 0x9 <= u <= 0xd
    ||| u == 0x20
    ||| u == 0x85
    ||| u == 0xa0
    ||| u == 0x1680
    ||| 0x2000 <= u <= 0x200a
    ||| u == 0x2028
    ||| u == 0x2029
    ||| u == 0x202f
    ||| u == 0x205f
    ||| u == 0x3000
}

fn white(c: char) -> (b: bool)
    ensures
        b == is_white(c),
{
    let u: u32 = c as u32;
    (0x9 <= u && u <= 0xd) || u == 0x20 || u == 0x85 || u == 0xa0 || u == 0x1680 || (0x2000 <= u
        && u <= 0x200a) || u == 0x2028 || u == 0x2029 || u == 0x202f || u == 0x205f || u == 0x3000
}

/// The text without the white space at its end.
pub open spec fn end_trimmed(t: Seq<char>) -> Seq<char>
    decreases t.len(),
{
    if t.len() > 0 && is_white(t.last()) {
        end_trimmed(t.drop_last())
    } else {
        t
    }
}

/// The text without the white space at its beginning.
pub open spec fn start_trimmed(t: Seq<char>) -> Seq<char>
    decreases t.len(),
{
    if t.len() > 0 && is_white(t[0]) {
        start_trimmed(t.skip(1))
    } else {
        t
    }
}

/// The text without the white space around it.
pub open spec fn trimmed(t: Seq<char>) -> Seq<char> {
    end_trimmed(start_trimmed(t))
}

/// [`trimmed`], computed.
pub fn trim(text: &str) -> (out: String)
    ensures
        out@ == trimmed(text@),
{
    let n: usize = text.unicode_len();
    let mut start: usize = 0;
    proof {
        assert(text@.skip(0) =~= text@);
    }
    while start < n && white(text.get_char(start))
        invariant
            start <= n == text@.len(),
            start_trimmed(text@.skip(start as int)) == start_trimmed(text@),
        decreases n - start,
    {
        assert(text@.skip(start as int).skip(1) =~= text@.skip(start + 1));
        start += 1;
    }
    let ghost rest = text@.skip(start as int);
    assert(rest == start_trimmed(text@));
    let mut end: usize = n;
    proof {
        assert(text@.subrange(start as int, n as int) =~= rest);
    }
    while start < end && white(text.get_char(end - 1))
        invariant
            start <= end <= n == text@.len(),
            end_trimmed(text@.subrange(start as int, end as int)) == end_trimmed(rest),
        decreases end,
    {
        assert(text@.subrange(start as int, end as int).drop_last() =~= text@.subrange(
            start as int,
            end - 1,
        ));
        end -= 1;
    }
    text.substring_char(start, end).to_owned()
}

proof fn lemma_start_trimmed(t: Seq<char>) -> (n: int)
    ensures
        0 <= n <= t.len(),
        start_trimmed(t) == t.skip(n),
        forall|i: int| 0 <= i < n ==> is_white(#[trigger] t[i]),
        n < t.len() ==> !is_white(t[n]),
    decreases t.len(),
{
    if t.len() > 0 && is_white(t[0]) {
        let n = lemma_start_trimmed(t.skip(1));
        assert(t.skip(1).skip(n) =~= t.skip(n + 1));
        assert forall|i: int| 0 <= i < n + 1 implies is_white(#[trigger] t[i]) by {
            if i > 0 {
                assert(t[i] == t.skip(1)[i - 1]);
            }
        }
        if n + 1 < t.len() {
            assert(t.skip(1)[n] == t[n + 1]);
        }
        n + 1
    } else {
        assert(t.skip(0) =~= t);
        0
    }
}

proof fn lemma_end_trimmed(t: Seq<char>) -> (n: int)
    ensures
        0 <= n <= t.len(),
        end_trimmed(t) == t.take(n),
        forall|i: int| n <= i < t.len() ==> is_white(#[trigger] t[i]),
        n > 0 ==> !is_white(t[n - 1]),
    decreases t.len(),
{
    if t.len() > 0 && is_white(t.last()) {
        let n = lemma_end_trimmed(t.drop_last());
        assert(t.drop_last().take(n) =~= t.take(n));
        assert forall|i: int| n <= i < t.len() implies is_white(#[trigger] t[i]) by {
            if i < t.len() - 1 {
                assert(t[i] == t.drop_last()[i]);
            }
        }
        n
    } else {
        assert(t.take(t.len() as int) =~= t);
        t.len() as int
    }
}

/// Trimming takes white space off both ends of a text and nothing else: what is
/// left is a piece of it that neither begins nor ends with white space, and all
/// around it is white space.
pub proof fn law_trim_takes_white_ends(t: Seq<char>)
    ensures
        exists|start: int, end: int|
            {
                &&& 0 <= start <= end <= t.len()
                &&& trimmed(t) == #[trigger] t.subrange(start, end)
                &&& forall|i: int| 0 <= i < start || end <= i < t.len() ==> is_white(#[trigger] t[i])
                &&& start < end ==> !is_white(t[start]) && !is_white(t[end - 1])
            },
        trimmed(t).len() == 0 <==> forall|i: int| 0 <= i < t.len() ==> is_white(#[trigger] t[i]),
{
    let start = lemma_start_trimmed(t);
    let rest = t.skip(start);
    let n = lemma_end_trimmed(rest);
    let end = start + n;
    assert(rest.take(n) =~= t.subrange(start, end));
    assert forall|i: int| 0 <= i < start || end <= i < t.len() implies is_white(#[trigger] t[i]) by {
        if end <= i {
            assert(t[i] == rest[i - start]);
        }
    }
    if start < end {
        assert(rest[n - 1] == t[end - 1]);
        assert(rest[0] == t[start]);
    }
}

/// White space is what Unicode calls so; no digit and no letter of ASCII is.
pub proof fn law_white_space(c: char)
    ensures
        c as u32 == 0x20 || 0x9 <= c as u32 <= 0xd ==> is_white(c),
        0x21 <= c as u32 <= 0x7e ==> !is_white(c),
        is_white(c) <==> 0x9 <= c as u32 <= 0xd || 0x2000 <= c as u32 <= 0x200a || c as u32 == 0x20
            || c as u32 == 0x85 || c as u32 == 0xa0 || c as u32 == 0x1680 || c as u32 == 0x2028
            || c as u32 == 0x2029 || c as u32 == 0x202f || c as u32 == 0x205f || c as u32 == 0x3000,
{
}

/// A number in decimal notation has no leading zero, and without its last digit
/// it is the number of its tens; what one writes can be told from any other.
pub proof fn law_decimal(n: nat)
    ensures
        decimal(n).len() > 0,
        forall|i: int|
            0 <= i < decimal(n).len() ==> '0' <= (#[trigger] decimal(n)[i]) && decimal(n)[i] <= '9',
        decimal(n)[0] == '0' ==> n == 0,
        decimal(n).last() as int == '0' as int + n % 10,
        n >= 10 ==> decimal(n).drop_last() == decimal(n / 10),
        n < 10 ==> decimal(n).len() == 1,
    decreases n,
{
    if n >= 10 {
        law_decimal(n / 10);
        assert(decimal(n).drop_last() =~= decimal(n / 10));
        assert(decimal(n)[0] == decimal(n / 10)[0]);
    }
}

/// Text that is filled up keeps what it has and has spaces behind it, up to the
/// width; it is never made shorter.
pub proof fn law_padding_adds_spaces(text: Seq<char>, width: int)
    ensures
        text.is_prefix_of(padded(text, width)),
        padded(text, width).len() == max(text.len() as int, width),
        forall|i: int|
            text.len() <= i < padded(text, width).len() ==> #[trigger] padded(text, width)[i]
                == ' ',
{
    assert(padded(text, width).take(text.len() as int) =~= text);
}

/// Text that is cut keeps as many characters from its start as there is room
/// for.
pub proof fn law_cut_keeps_start(text: Seq<char>, n: int)
    requires
        0 <= n,
    ensures
        cut(text, n).is_prefix_of(text),
        cut(text, n).len() == min(text.len() as int, n),
{
}

/// So many spaces, and nothing else.
pub proof fn law_spaces(n: int)
    ensures
        spaces(n).len() == max(n, 0),
        forall|i: int| 0 <= i < n ==> #[trigger] spaces(n)[i] == ' ',
{
}

} // verus!
