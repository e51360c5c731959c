//! The size of the terminal, in cells and in pixels.

use crate::text::{decimal, law_decimal};
use vstd::math::{abs, max};
use vstd::prelude::*;

verus! {

/// The width of a cell in pixels, where the terminal does not tell it.
pub const FALLBACK_CELL_WIDTH: u16 = 10;

/// The height of a cell in pixels, where the terminal does not tell it.
pub const FALLBACK_CELL_HEIGHT: u16 = 20;

/// The distance between neighbouring single-precision numbers at `n`.
pub open spec fn spacing(n: nat) -> nat
    decreases n,
{
    if n < 0x100_0000 {
        1
    } else {
        2 * spacing(n / 2)
    }
}

/// The single-precision number nearest to `n`; of two that are equally near,
/// the even one.
pub open spec fn to_single(n: nat) -> nat {
    let unit = spacing(n);
    let over = n % unit;
    if 2 * over < unit || (2 * over == unit && (n / unit) % 2 == 0) {
        (n - over) as nat
    } else {
        (n - over + unit) as nat
    }
}

/// [`spacing`], computed.
fn single_spacing(n: u32) -> (unit: u32)
    ensures
        unit == spacing(n as nat),
        unit == 1 || 1 < unit && unit * 0x80_0000 <= n,
    decreases n,
{
    if n < 0x100_0000 {
        1
    } else {
        2 * single_spacing(n / 2)
    }
}

/// Terminal dimensions in both cells and pixels.
#[derive(Debug, Clone, Copy)]
pub struct WindowSize {
    pub rows: u16,
    pub cols: u16,
    /// Total terminal width in pixels.
    pub width_px: u16,
    /// Width of a single cell in pixels.
    pub cell_width_px: u16,
    /// Height of a single cell in pixels.
    pub cell_height_px: u16,
}

impl WindowSize {
    /// Rows above the status bar.
    pub open spec fn page_rows_spec(&self) -> u16 {
        if self.rows == 0 {
            0
        } else {
            (self.rows - 1) as u16
        }
    }

    /// Pixels above the status bar, in single precision.
    pub open spec fn page_height(&self) -> nat {
        to_single((self.page_rows_spec() * self.cell_height_px) as nat)
    }

    /// Pixel width of the page display area (full terminal width).
    pub fn page_area_width_px(&self) -> (px: u32)
        ensures
            px == self.width_px,
    {
        self.width_px as u32
    }

    /// Pixel height of the page display area (terminal minus one row for
    /// status bar), in single precision.
    pub fn page_area_height_px(&self) -> (px: u32)
        ensures
            px == self.page_height(),
    {
        let rows: u32 = self.page_rows() as u32;
        let cell: u32 = self.cell_height_px as u32;
        proof {
            assert(rows * cell <= 65534 * 65535) by (nonlinear_arith)
                requires
                    0 <= rows <= 65534,
                    0 <= cell <= 65535,
            ;
            assert(0 <= rows * cell) by (nonlinear_arith)
                requires
                    0 <= rows,
                    0 <= cell,
            ;
        }
        let px: u32 = rows * cell;
        let unit: u32 = single_spacing(px);
        let over: u32 = px % unit;
        if 2 * over < unit || (2 * over == unit && (px / unit) % 2 == 0) {
            px - over
        } else {
            px - over + unit
        }
    }

    /// Number of rows available for page display (rows minus status bar).
    pub fn page_rows(&self) -> (rows: u16)
        ensures
            rows == self.page_rows_spec(),
    {
        self.rows.saturating_sub(1)
    }
}

/// The terminal does not tell its size in pixels and is to be asked for that
/// of a cell.
pub fn needs_cell_query(width: u16, height: u16, cols: u16, rows: u16) -> (ask: bool)
    ensures
        ask == (cols > 0 && rows > 0 && (width == 0 || height == 0)),
{
    cols > 0 && rows > 0 && (width == 0 || height == 0)
}

/// The size of a cell as it was told, or what is taken for it.
pub open spec fn cell_or_fallback(cell: Option<(u16, u16)>) -> (u16, u16) {
    match cell {
        Some(cell) => cell,
        None => (FALLBACK_CELL_WIDTH, FALLBACK_CELL_HEIGHT),
    }
}

/// The size of the terminal: from its size in pixels, where it tells it, else
/// from the size of a cell as the terminal answered, or as it is taken to be.
/// There is none for a terminal without rows or columns.
pub fn window_size_from(
    width: u16,
    height: u16,
    cols: u16,
    rows: u16,
    cell: Option<(u16, u16)>,
) -> (size: Option<WindowSize>)
    requires
        cols > 0 && rows > 0 && (width == 0 || height == 0) ==> cell_or_fallback(cell).0 * cols
            <= u16::MAX && cell_or_fallback(cell).1 * rows <= u16::MAX,
    ensures
        size is None <==> cols == 0 || rows == 0,
        size matches Some(size) ==> if width > 0 && height > 0 {
            size == (WindowSize {
                rows,
                cols,
                width_px: width,
                cell_width_px: width / cols,
                cell_height_px: height / rows,
            })
        } else {
            size == (WindowSize {
                rows,
                cols,
                width_px: (cell_or_fallback(cell).0 * cols) as u16,
                cell_width_px: cell_or_fallback(cell).0,
                cell_height_px: cell_or_fallback(cell).1,
            })
        },
{
    if cols == 0 || rows == 0 {
        return None;
    }
    let (width_px, height_px): (u16, u16) = if width > 0 && height > 0 {
        (width, height)
    } else {
        let (cell_w, cell_h): (u16, u16) = match cell {
            Some(cell) => cell,
            None => (FALLBACK_CELL_WIDTH, FALLBACK_CELL_HEIGHT),
        };
        proof {
            assert((cell_w * cols) / cols as int == cell_w) by (nonlinear_arith)
                requires
                    cols > 0,
            ;
            assert((cell_h * rows) / rows as int == cell_h) by (nonlinear_arith)
                requires
                    rows > 0,
            ;
        }
        (cell_w * cols, cell_h * rows)
    };
    Some(
        WindowSize {
            rows,
            cols,
            width_px,
            cell_width_px: width_px / cols,
            cell_height_px: height_px / rows,
        },
    )
}

/// Why the terminal's answer gives no cell size.
#[derive(Debug, Clone, Copy, PartialEq, Eq, Structural)]
pub enum ReplyError {
    /// It is not UTF-8.
    NotText,
    /// It has no second field.
    Unparseable,
    /// A field is no number of 16 bits.
    BadNumber,
}

/// `String::from_utf8`: the text that the bytes encode, if they are UTF-8.
#[verifier::external_body]
fn utf8_text(bytes: Vec<u8>) -> (text: Option<String>)
    ensures
        text is Some <==> vstd::utf8::valid_utf8(bytes@),
        text matches Some(text) ==> text@ == vstd::utf8::decode_utf8(bytes@),
{
    String::from_utf8(bytes).ok()
}

/// The text without the marks `ESC [ 4` that it begins with.
pub open spec fn without_marks(t: Seq<char>) -> Seq<char>
    decreases t.len(),
{
    if t.len() >= 3 && t[0] == '\u{1b}' && t[1] == '[' && t[2] == '4' {
        without_marks(t.skip(3))
    } else {
        t
    }
}

/// The text without the semicolons that it begins with.
pub open spec fn without_semicolons(t: Seq<char>) -> Seq<char>
    decreases t.len(),
{
    if t.len() > 0 && t[0] == ';' {
        without_semicolons(t.skip(1))
    } else {
        t
    }
}

pub open spec fn is_separator(c: char) -> bool {
    c == ';' || c == 't'
}

/// Where the first field ends.
pub open spec fn field_len(t: Seq<char>) -> nat
    decreases t.len(),
{
    if t.len() == 0 || is_separator(t[0]) {
        0
    } else {
        1 + field_len(t.skip(1))
    }
}

/// What digits stand for; nothing, if there is another character.
pub open spec fn digits_value(t: Seq<char>) -> Option<nat>
    decreases t.len(),
{
    if t.len() == 0 {
        Some(0)
    } else {
        match digits_value(t.drop_last()) {
            Some(n) if '0' <= t.last() && t.last() <= '9' => Some(
                (10 * n + (t.last() as int - '0' as int)) as nat,
            ),
            _ => None,
        }
    }
}

/// A number of 16 bits: digits, with or without a plus sign before them.
pub open spec fn number(t: Seq<char>) -> Option<u16> {
    let digits = if t.len() > 0 && t[0] == '+' {
        t.skip(1)
    } else {
        t
    };
    match digits_value(digits) {
        Some(n) if digits.len() > 0 && n <= u16::MAX => Some(n as u16),
        _ => None,
    }
}

/// Width and height of a cell in the terminal's answer,
/// `ESC [ 4 ; height ; width` up to the closing `t`.
pub open spec fn cell_size(reply: Seq<char>) -> Result<(u16, u16), ReplyError> {
    let t = without_semicolons(without_marks(reply));
    let first = t.take(field_len(t) as int);
    if field_len(t) == t.len() {
        Err(ReplyError::Unparseable)
    } else {
        let rest = t.skip(field_len(t) as int + 1);
        let second = rest.take(field_len(rest) as int);
        match (number(second), number(first)) {
            (Some(width), Some(height)) => Ok((width, height)),
            _ => Err(ReplyError::BadNumber),
        }
    }
}

fn chars_of(text: &str) -> (chars: Vec<char>)
    ensures
        chars@ == text@,
{
    let mut chars: Vec<char> = Vec::new();
    let n: usize = text.unicode_len();
    let mut i: usize = 0;
    while i < n
        invariant
            i <= n == text@.len(),
            chars@ == text@.take(i as int),
        decreases n - i,
    {
        chars.push(text.get_char(i));
        assert(chars@ =~= text@.take(i + 1));
        i += 1;
    }
    assert(text@.take(n as int) =~= text@);
    chars
}

/// The end of the field that begins at `from`.
fn field_end(chars: &Vec<char>, from: usize) -> (end: usize)
    requires
        from <= chars@.len(),
    ensures
        from <= end <= chars@.len(),
        end == from + field_len(chars@.skip(from as int)),
{
    let mut i: usize = from;
    while i < chars.len()
        invariant
            from <= i <= chars@.len(),
            i + field_len(chars@.skip(i as int)) == from + field_len(chars@.skip(from as int)),
        decreases chars@.len() - i,
    {
        if chars[i] == ';' || chars[i] == 't' {
            return i;
        }
        assert(chars@.skip(i as int).skip(1) =~= chars@.skip(i + 1));
        i += 1;
    }
    i
}

/// A field with a character that is no digit has no value, whatever follows.
proof fn lemma_no_value(t: Seq<char>, k: int)
    requires
        0 <= k <= t.len(),
        digits_value(t.take(k)) is None,
    ensures
        digits_value(t) is None,
    decreases t.len(),
{
    if k < t.len() {
        assert(t.drop_last().take(k) =~= t.take(k));
        lemma_no_value(t.drop_last(), k);
    } else {
        assert(t.take(k) =~= t);
    }
}

/// More digits make no smaller number.
proof fn lemma_value_grows(t: Seq<char>, k: int)
    requires
        0 <= k <= t.len(),
        digits_value(t.take(k)) is Some,
        digits_value(t) is Some,
    ensures
        digits_value(t.take(k))->0 <= digits_value(t)->0,
    decreases t.len(),
{
    if k < t.len() {
        assert(t.drop_last().take(k) =~= t.take(k));
        lemma_value_grows(t.drop_last(), k);
    } else {
        assert(t.take(k) =~= t);
    }
}

/// The value of the digit.
fn digit_value(c: char) -> (d: Option<u16>)
    ensures
        d is Some <==> '0' <= c && c <= '9',
        d matches Some(d) ==> d == c as int - '0' as int,
        d matches Some(d) ==> d <= 9,
{
    if '0' <= c && c <= '9' {
        Some((c as u32 - '0' as u32) as u16)
    } else {
        None
    }
}

/// The number that the characters `from..to` stand for.
fn parse_number(chars: &Vec<char>, from: usize, to: usize) -> (n: Option<u16>)
    requires
        from <= to <= chars@.len(),
    ensures
        n == number(chars@.subrange(from as int, to as int)),
{
    let ghost field = chars@.subrange(from as int, to as int);
    let start: usize = if from < to && chars[from] == '+' {
        from + 1
    } else {
        from
    };
    let ghost digits = chars@.subrange(start as int, to as int);
    proof {
        if start > from {
            assert(field[0] == '+');
            assert(field.skip(1) =~= digits);
        } else {
            assert(field.len() > 0 ==> field[0] == chars@[from as int]);
        }
    }
    if start == to {
        return None;
    }
    let mut value: u16 = 0;
    let mut i: usize = start;
    while i < to
        invariant
            start <= i <= to <= chars@.len(),
            digits == chars@.subrange(start as int, to as int),
            number(chars@.subrange(from as int, to as int)) == match digits_value(digits) {
                Some(n) if n <= u16::MAX => Some(n as u16),
                _ => None,
            },
            digits_value(digits.take(i - start)) == Some(value as nat),
        decreases to - i,
    {
        let ghost k = i - start;
        proof {
            assert(digits.take(k + 1).drop_last() =~= digits.take(k));
            assert(digits.take(k + 1).last() == chars@[i as int]);
        }
        match digit_value(chars[i]) {
            Some(d) => {
                let next: u32 = 10 * value as u32 + d as u32;
                if next > 0xffff {
                    proof {
                        if digits_value(digits) is Some {
                            lemma_value_grows(digits, k + 1);
                        }
                    }
                    return None;
                }
                value = next as u16;
            },
            None => {
                proof {
                    lemma_no_value(digits, k + 1);
                }
                return None;
            },
        }
        i += 1;
    }
    assert(digits.take(digits.len() as int) =~= digits);
    Some(value)
}

/// Where the characters go on behind the marks that they begin with.
fn skip_marks(chars: &Vec<char>) -> (at: usize)
    ensures
        at <= chars@.len(),
        chars@.skip(at as int) == without_marks(chars@),
{
    let len: usize = chars.len();
    let mut at: usize = 0;
    assert(chars@.skip(0) =~= chars@);
    while len - at >= 3 && chars[at] == '\u{1b}' && chars[at + 1] == '[' && chars[at + 2] == '4'
        invariant
            at <= len == chars@.len(),
            without_marks(chars@.skip(at as int)) == without_marks(chars@),
        decreases len - at,
    {
        assert(chars@.skip(at as int).skip(3) =~= chars@.skip(at + 3));
        at += 3;
    }
    at
}

/// Where the characters go on behind the semicolons from `from` on.
fn skip_semicolons(chars: &Vec<char>, from: usize) -> (at: usize)
    requires
        from <= chars@.len(),
    ensures
        from <= at <= chars@.len(),
        chars@.skip(at as int) == without_semicolons(chars@.skip(from as int)),
{
    let len: usize = chars.len();
    let mut at: usize = from;
    while at < len && chars[at] == ';'
        invariant
            from <= at <= len == chars@.len(),
            without_semicolons(chars@.skip(at as int)) == without_semicolons(
                chars@.skip(from as int),
            ),
        decreases len - at,
    {
        assert(chars@.skip(at as int).skip(1) =~= chars@.skip(at + 1));
        at += 1;
    }
    at
}

/// The size of a cell in the characters of an answer.
fn cell_size_in(chars: &Vec<char>) -> (size: Result<(u16, u16), ReplyError>)
    ensures
        size == cell_size(chars@),
{
    let start: usize = skip_semicolons(chars, skip_marks(chars));
    let ghost t = chars@.skip(start as int);
    assert(t == without_semicolons(without_marks(chars@)));
    let first_end: usize = field_end(chars, start);
    if first_end == chars.len() {
        return Err(ReplyError::Unparseable);
    }
    let second_end: usize = field_end(chars, first_end + 1);
    proof {
        let rest = chars@.skip(first_end + 1);
        assert(t.skip(field_len(t) as int + 1) =~= rest);
        assert(t.take(field_len(t) as int) =~= chars@.subrange(start as int, first_end as int));
        assert(rest.take(field_len(rest) as int) =~= chars@.subrange(
            first_end + 1,
            second_end as int,
        ));
    }
    match (parse_number(chars, first_end + 1, second_end), parse_number(chars, start, first_end)) {
        (Some(width), Some(height)) => Ok((width, height)),
        _ => Err(ReplyError::BadNumber),
    }
}

/// Reads the size of a cell, its width and its height, from the bytes that
/// the terminal answered before the closing `t`.
pub fn parse_cell_size(reply: Vec<u8>) -> (size: Result<(u16, u16), ReplyError>)
    ensures
        size == if vstd::utf8::valid_utf8(reply@) {
            cell_size(vstd::utf8::decode_utf8(reply@))
        } else {
            Err(ReplyError::NotText)
        },
{
    match utf8_text(reply) {
        Some(text) => cell_size_in(&chars_of(text.as_str())),
        None => Err(ReplyError::NotText),
    }
}

/// A number with at most 24 binary digits is a single-precision number.
pub proof fn law_small_numbers_are_exact(n: nat)
    requires
        n < 0x100_0000,
    ensures
        to_single(n) == n,
{
}

/// Of greater numbers, the nearest multiple of the unit is taken that numbers of
/// this size are counted in; of two that are equally near, the one that is a
/// multiple of twice the unit.
pub proof fn law_great_numbers_are_rounded(n: nat, unit: nat)
    requires
        unit == 2 || unit == 4 || unit == 8 || unit == 16 || unit == 32 || unit == 64 || unit
            == 128 || unit == 256,
        0x80_0000 * unit <= n < 0x100_0000 * unit,
    ensures
        to_single(n) % unit == 0,
        2 * abs(to_single(n) - n) <= unit,
        2 * abs(to_single(n) - n) == unit ==> to_single(n) % (2 * unit) == 0,
{
    reveal_with_fuel(spacing, 10);
    assert(spacing(n) == unit);
    let over = (n % unit) as int;
    let times = (n / unit) as int;
    let u = unit as int;
    vstd::arithmetic::div_mod::lemma_fundamental_div_mod(n as int, u);
    assert(n == u * times + over);
    assert((u * times) % u == 0 && (u * times + u) % u == 0) by (nonlinear_arith)
        requires
            u > 0,
    ;
    if times % 2 == 0 {
        let half = times / 2;
        assert(u * times == half * (2 * u)) by (nonlinear_arith)
            requires
                times == 2 * half,
        ;
        vstd::arithmetic::div_mod::lemma_mod_multiples_basic(half, 2 * u);
    } else {
        let half = (times + 1) / 2;
        assert(u * times + u == half * (2 * u)) by (nonlinear_arith)
            requires
                times + 1 == 2 * half,
        ;
        vstd::arithmetic::div_mod::lemma_mod_multiples_basic(half, 2 * u);
    }
}

/// The page area is all rows of the terminal but the last.
pub proof fn law_page_area(ws: WindowSize)
    ensures
        ws.page_rows_spec() == max(0, ws.rows - 1),
        max(0, ws.rows - 1) * ws.cell_height_px < 0x100_0000 ==> ws.page_height() == max(
            0,
            ws.rows - 1,
        ) * ws.cell_height_px,
{
    assert(0 <= ws.page_rows_spec() * ws.cell_height_px) by (nonlinear_arith)
        requires
            0 <= ws.page_rows_spec(),
            0 <= ws.cell_height_px,
    ;
}

/// Digits stand for the number that they write.
pub proof fn law_digits_are_read_back(n: nat)
    ensures
        digits_value(decimal(n)) == Some(n),
    decreases n,
{
    law_decimal(n);
    let t = decimal(n);
    if n >= 10 {
        law_digits_are_read_back(n / 10);
    } else {
        assert(t.drop_last() =~= Seq::<char>::empty());
        assert(digits_value(t.drop_last()) == Some(0nat));
    }
}

proof fn lemma_field(digits: Seq<char>, rest: Seq<char>)
    requires
        forall|i: int| 0 <= i < digits.len() ==> !is_separator(#[trigger] digits[i]),
        rest.len() == 0 || is_separator(rest[0]),
    ensures
        field_len(digits + rest) == digits.len(),
    decreases digits.len(),
{
    let t = digits + rest;
    if digits.len() > 0 {
        assert(t[0] == digits[0]);
        assert(t.skip(1) =~= digits.skip(1) + rest);
        lemma_field(digits.skip(1), rest);
    } else {
        assert(t =~= rest);
    }
}

proof fn lemma_number(n: u16)
    ensures
        number(decimal(n as nat)) == Some(n),
        forall|i: int| 0 <= i < decimal(n as nat).len() ==> !is_separator(#[trigger] decimal(n as nat)[i]),
        decimal(n as nat).len() > 0,
        decimal(n as nat)[0] != ';',
{
    law_decimal(n as nat);
    law_digits_are_read_back(n as nat);
    let d = decimal(n as nat);
    assert('0' <= d[0] && d[0] <= '9');
    assert forall|i: int| 0 <= i < d.len() implies !is_separator(#[trigger] d[i]) by {
        assert('0' <= d[i] && d[i] <= '9');
    }
}

/// The size of a cell is read as the terminal writes it: after `ESC [ 4 ;`, its
/// height, a semicolon, and its width. An answer without a width has none.
pub proof fn law_cell_size_is_read(height: u16, width: u16)
    ensures
        cell_size(
            seq!['\u{1b}', '[', '4', ';'] + decimal(height as nat) + seq![';'] + decimal(width as nat),
        ) == Ok::<(u16, u16), ReplyError>((width, height)),
        cell_size(seq!['\u{1b}', '[', '4', ';'] + decimal(height as nat)) == Err::<
            (u16, u16),
            ReplyError,
        >(ReplyError::Unparseable),
{
    let mark = seq!['\u{1b}', '[', '4', ';'];
    let h = decimal(height as nat);
    let w = decimal(width as nat);
    lemma_number(height);
    lemma_number(width);
    let full = mark + h + seq![';'] + w;
    let tail = seq![';'] + w;
    lemma_stripped(full, h + tail);
    lemma_field(h, tail);
    let t = h + tail;
    assert(t.take(h.len() as int) =~= h);
    assert(t.skip(h.len() as int + 1) =~= w);
    assert(w =~= w + Seq::<char>::empty());
    lemma_field(w, Seq::empty());
    assert(w.take(w.len() as int) =~= w);
    let short = mark + h;
    lemma_stripped(short, h);
    assert(h =~= h + Seq::<char>::empty());
    lemma_field(h, Seq::empty());
}

/// What is left of an answer without its mark and the semicolon behind it.
proof fn lemma_stripped(reply: Seq<char>, rest: Seq<char>)
    requires
        reply =~= seq!['\u{1b}', '[', '4', ';'] + rest,
        rest.len() > 0,
        rest[0] != ';',
    ensures
        without_semicolons(without_marks(reply)) == rest,
{
    let after = reply.skip(3);
    assert(after =~= seq![';'] + rest);
    assert(after[0] == ';');
    assert(without_marks(after) == after);
    assert(without_marks(reply) == after);
    assert(after.skip(1) =~= rest);
    assert(without_semicolons(rest) == rest);
    assert(without_semicolons(after) == rest);
}

proof fn lemma_only_digits(t: Seq<char>, i: int)
    requires
        digits_value(t) is Some,
        0 <= i < t.len(),
    ensures
        '0' <= t[i] && t[i] <= '9',
    decreases t.len(),
{
    if i < t.len() - 1 {
        lemma_only_digits(t.drop_last(), i);
    }
}

/// Only digits make a number, with or without a plus sign before them, and only
/// as long as it fits in 16 bits.
pub proof fn law_what_is_a_number(t: Seq<char>, n: nat)
    ensures
        number(t) is Some ==> t.len() > 0,
        number(t) is Some ==> forall|i: int|
            1 <= i < t.len() ==> '0' <= (#[trigger] t[i]) && t[i] <= '9',
        number(t) is Some ==> t[0] == '+' && t.len() > 1 || '0' <= t[0] && t[0] <= '9',
        number(decimal(n)) is Some <==> n <= u16::MAX,
        n <= u16::MAX ==> number(decimal(n)) == Some(n as u16) && number(seq!['+'] + decimal(n))
            == Some(n as u16),
        number(Seq::empty()) is None,
{
    let digits = if t.len() > 0 && t[0] == '+' {
        t.skip(1)
    } else {
        t
    };
    if number(t) is Some {
        assert forall|i: int| 0 <= i < digits.len() implies '0' <= (#[trigger] digits[i])
            && digits[i] <= '9' by {
            lemma_only_digits(digits, i);
        }
        assert('0' <= digits[0] && digits[0] <= '9');
        assert forall|i: int| 1 <= i < t.len() implies '0' <= (#[trigger] t[i]) && t[i] <= '9' by {
            if t[0] == '+' {
                assert(t[i] == digits[i - 1]);
            }
        }
    }
    law_digits_are_read_back(n);
    law_decimal(n);
    assert('0' <= decimal(n)[0] && decimal(n)[0] <= '9');
    let signed = seq!['+'] + decimal(n);
    assert(signed.skip(1) =~= decimal(n));
}

/// Fields end at a semicolon or at the closing `t`; a cell is taken to be ten by
/// twenty pixels where the terminal does not tell.
pub proof fn law_answers(c: char, cell: (u16, u16))
    ensures
        is_separator(c) <==> c == ';' || c == 't',
        cell_or_fallback(Some(cell)) == cell,
        cell_or_fallback(None) == (10u16, 20u16),
{
}

/// The two fields of an answer are the height and the width of a cell, whatever
/// follows them; if one of them is no number, so is the answer.
pub proof fn law_fields_of_an_answer(height: Seq<char>, width: Seq<char>, tail: Seq<char>)
    requires
        height.len() > 0,
        forall|i: int|
            0 <= i < height.len() ==> (#[trigger] height[i]) != ';' && height[i] != 't',
        forall|i: int| 0 <= i < width.len() ==> (#[trigger] width[i]) != ';' && width[i] != 't',
        tail.len() == 0 || tail[0] == ';' || tail[0] == 't',
    ensures
        ({
            let size = cell_size(
                seq!['\u{1b}', '[', '4', ';'] + height + seq![';'] + width + tail,
            );
            &&& number(height) is Some && number(width) is Some ==> size == Ok::<
                (u16, u16),
                ReplyError,
            >((number(width)->0, number(height)->0))
            &&& number(height) is None || number(width) is None ==> size == Err::<
                (u16, u16),
                ReplyError,
            >(ReplyError::BadNumber)
        }),
{
    let reply = seq!['\u{1b}', '[', '4', ';'] + height + seq![';'] + width + tail;
    let after = seq![';'] + width + tail;
    let t = height + after;
    lemma_stripped(reply, t);
    lemma_field(height, after);
    let rest = width + tail;
    assert(t.take(height.len() as int) =~= height);
    assert(t.skip(height.len() as int + 1) =~= rest);
    lemma_field(width, tail);
    assert(rest.take(width.len() as int) =~= width);
}

} // verus!
