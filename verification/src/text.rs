//! Strings: decimal numbers, lines and the room they take on a screen.
use vstd::prelude::*;

verus! {

/// `String::push` appends one character and leaves what was there as it is.
pub assume_specification[ String::push ](s: &mut String, ch: char)
    ensures
        final(s)@ == old(s)@.push(ch),
;

/// `String::pop` takes the last character off and hands it out; of an empty string it
/// takes nothing and hands out `None`.
pub assume_specification[ String::pop ](s: &mut String) -> (ch: Option<char>)
    ensures
        old(s)@.len() == 0 ==> ch is None && final(s)@ == old(s)@,
        old(s)@.len() > 0 ==> ch == Some(old(s)@.last()) && final(s)@ == old(s)@.drop_last(),
;

/// The digit that stands for `d` in decimal.
pub open spec fn digit(d: nat) -> char {
    (('0' as u32) + d) as char
}

/// `n` in decimal, without leading zeros.
pub open spec fn decimal(n: nat) -> Seq<char>
    decreases n,
{
    if n < 10 {
        seq![digit(n)]
    } else {
        decimal(n / 10).push(digit(n % 10))
    }
}

fn digit_char(d: usize) -> (c: char)
    requires
        d < 10,
    ensures
        c == digit(d as nat),
{
    if d == 0 {
        '0'
    } else if d == 1 {
        '1'
    } else if d == 2 {
        '2'
    } else if d == 3 {
        '3'
    } else if d == 4 {
        '4'
    } else if d == 5 {
        '5'
    } else if d == 6 {
        '6'
    } else if d == 7 {
        '7'
    } else if d == 8 {
        '8'
    } else {
        '9'
    }
}

/// Appends `n` in decimal.
pub fn push_decimal(s: &mut String, n: usize)
    ensures
        final(s)@ == old(s)@ + decimal(n as nat),
    decreases n,
{
    let ghost before = s@;
    if n >= 10 {
        push_decimal(s, n / 10);
    }
    s.push(digit_char(n % 10));
    proof {
        if n >= 10 {
            assert(s@ =~= before + decimal((n / 10) as nat).push(digit((n % 10) as nat)));
        } else {
            assert(s@ =~= before + seq![digit(n as nat)]);
        }
    }
}

/// A number is written in digits only.
pub proof fn lemma_decimal_digits(n: nat)
    ensures
        decimal(n).len() > 0,
        forall|i: int| 0 <= i < decimal(n).len() ==> '0' <= #[trigger] decimal(n)[i] <= '9',
    decreases n,
{
    if n >= 10 {
        lemma_decimal_digits(n / 10);
    }
}

/// No two numbers are written the same.
pub proof fn lemma_decimal_injective(a: nat, b: nat)
    requires
        decimal(a) == decimal(b),
    ensures
        a == b,
    decreases a,
{
    lemma_decimal_digits(a / 10);
    lemma_decimal_digits(b / 10);
    assert(decimal(a).last() == digit(a % 10));
    assert(decimal(b).last() == digit(b % 10));
    if a >= 10 && b >= 10 {
        assert(decimal(a).drop_last() =~= decimal(a / 10));
        assert(decimal(b).drop_last() =~= decimal(b / 10));
        lemma_decimal_injective(a / 10, b / 10);
    }
}

/// How many bytes a string takes in UTF-8.
pub open spec fn byte_len(s: Seq<char>) -> nat {
    vstd::utf8::encode_utf8(s).len()
}

/// How many bytes one character takes in UTF-8.
pub open spec fn char_len(c: char) -> nat {
    vstd::utf8::encode_scalar(c as u32).len()
}

/// The bytes of a string are those of its front and of its last character.
pub proof fn lemma_byte_len_push(s: Seq<char>, c: char)
    ensures
        byte_len(s.push(c)) == byte_len(s) + char_len(c),
    decreases s.len(),
{
    reveal_with_fuel(vstd::utf8::encode_utf8, 2);
    if s.len() == 0 {
        assert(s.push(c).drop_first() =~= Seq::<char>::empty());
        assert(s.push(c)[0] == c);
    } else {
        lemma_byte_len_push(s.drop_first(), c);
        assert(s.push(c).drop_first() =~= s.drop_first().push(c));
        assert(s.push(c)[0] == s[0]);
    }
}

/// The bytes of two strings put together are the bytes of both.
pub proof fn lemma_byte_len_add(a: Seq<char>, b: Seq<char>)
    ensures
        byte_len(a + b) == byte_len(a) + byte_len(b),
    decreases b.len(),
{
    if b.len() == 0 {
        assert(a + b =~= a);
    } else {
        let front = b.drop_last();
        lemma_byte_len_add(a, front);
        lemma_byte_len_push(a + front, b.last());
        lemma_byte_len_push(front, b.last());
        assert((a + front).push(b.last()) =~= a + b);
        assert(front.push(b.last()) =~= b);
    }
}

fn char_bytes(c: char) -> (n: usize)
    ensures
        n == char_len(c),
        1 <= n <= 4,
{
    let code: u32 = c as u32;
    if code <= 0x7F {
        1
    } else if code <= 0x7FF {
        2
    } else if code <= 0xFFFF {
        3
    } else {
        4
    }
}

/// Where the first line feed of `s` stands, or the length of `s` where there is none.
pub open spec fn line_end(s: Seq<char>) -> nat
    decreases s.len(),
{
    if s.len() == 0 || s[0] == '\n' {
        0
    } else {
        1 + line_end(s.drop_first())
    }
}

proof fn lemma_line_end(s: Seq<char>)
    ensures
        line_end(s) <= s.len(),
    decreases s.len(),
{
    if s.len() > 0 && s[0] != '\n' {
        lemma_line_end(s.drop_first());
    }
}

/// A line without the carriage return that belongs to its end.
pub open spec fn chomp(line: Seq<char>) -> Seq<char> {
    if line.len() > 0 && line.last() == '\r' {
        line.drop_last()
    } else {
        line
    }
}

/// The lines of a text: what stands between line feeds, each without a carriage return in
/// front of its line feed. The last line need not end in a line feed.
pub open spec fn lines(s: Seq<char>) -> Seq<Seq<char>>
    decreases s.len(),
{
    if s.len() == 0 {
        seq![]
    } else if line_end(s) >= s.len() {
        seq![s]
    } else {
        seq![chomp(s.take(line_end(s) as int))] + lines(s.skip(line_end(s) as int + 1))
    }
}

/// `a / b`, rounded up.
pub open spec fn ceil_div(a: nat, b: nat) -> nat {
    if a % b == 0 {
        a / b
    } else {
        a / b + 1
    }
}

/// The rows that one line takes on a screen `width` wide, with room for a cursor behind it.
pub open spec fn line_rows(line: Seq<char>, width: nat) -> nat {
    ceil_div(byte_len(line) + 1, width)
}

/// The rows that some lines take together.
pub open spec fn sum_rows(ls: Seq<Seq<char>>, width: nat) -> nat
    decreases ls.len(),
{
    if ls.len() == 0 {
        0
    } else {
        line_rows(ls[0], width) + sum_rows(ls.drop_first(), width)
    }
}

/// The rows that a text takes on a screen `width` wide.
pub open spec fn text_rows(s: Seq<char>, width: nat) -> nat {
    sum_rows(lines(s), width)
}

spec fn no_feed(s: Seq<char>) -> bool {
    forall|i: int| 0 <= i < s.len() ==> s[i] != '\n'
}

proof fn lemma_line_end_at(line: Seq<char>, rest: Seq<char>)
    requires
        no_feed(line),
    ensures
        rest.len() > 0 && rest[0] == '\n' ==> line_end(line + rest) == line.len(),
        rest.len() == 0 ==> line_end(line + rest) == line.len(),
    decreases line.len(),
{
    if line.len() == 0 {
        assert(line + rest =~= rest);
    } else {
        assert((line + rest).drop_first() =~= line.drop_first() + rest);
        lemma_line_end_at(line.drop_first(), rest);
    }
}

proof fn lemma_rows_unfold(line: Seq<char>, rest: Seq<char>, width: nat)
    requires
        no_feed(line),
    ensures
        rest.len() > 0 && rest[0] == '\n' ==> text_rows(line + rest, width) == line_rows(
            chomp(line),
            width,
        ) + text_rows(rest.drop_first(), width),
        rest.len() == 0 && line.len() > 0 ==> text_rows(line + rest, width) == line_rows(
            line,
            width,
        ),
        rest.len() == 0 && line.len() == 0 ==> text_rows(line + rest, width) == 0,
{
    lemma_line_end_at(line, rest);
    let s = line + rest;
    reveal_with_fuel(sum_rows, 2);
    if rest.len() > 0 && rest[0] == '\n' {
        assert(s.take(line.len() as int) =~= line);
        assert(s.skip(line.len() as int + 1) =~= rest.drop_first());
        let ls = seq![chomp(line)] + lines(rest.drop_first());
        assert(lines(s) == ls);
        assert(ls.drop_first() =~= lines(rest.drop_first()));
    }
    if rest.len() == 0 {
        assert(s =~= line);
        if line.len() > 0 {
            assert(lines(s) =~= seq![line]);
            assert(seq![line].drop_first() =~= Seq::<Seq<char>>::empty());
        }
    }
}

/// A quotient, rounded up, is at most its dividend.
pub proof fn lemma_ceil_div_le(a: nat, b: nat)
    requires
        b > 0,
    ensures
        ceil_div(a, b) <= a,
{
    assert(a % b == 0 ==> a / b <= a) by (nonlinear_arith)
        requires
            b > 0,
    ;
    assert(a % b != 0 ==> a / b + 1 <= a) by (nonlinear_arith)
        requires
            b > 0,
    {
        let q = a / b;
        let r = a % b;
        assert(a == b * q + r);
        if r != 0 {
            assert(b * q >= q);
        }
    }
}

/// `a / b`, rounded up.
pub fn div_ceil(a: usize, b: usize) -> (q: usize)
    requires
        b > 0,
    ensures
        q == ceil_div(a as nat, b as nat),
{
    proof {
        lemma_ceil_div_le(a as nat, b as nat);
    }
    if a % b == 0 {
        a / b
    } else {
        a / b + 1
    }
}

/// A number of rows as it can be written down: the largest `usize` stands for all that are
/// larger.
pub open spec fn capped(rows: nat) -> usize {
    if rows <= usize::MAX {
        rows as usize
    } else {
        usize::MAX
    }
}

/// The rows that one line of `bytes` bytes takes on a screen `width` wide.
fn count_line(bytes: usize, width: usize) -> (rows: u128)
    requires
        width > 0,
    ensures
        rows == ceil_div((bytes + 1) as nat, width as nat),
        rows <= bytes + 1,
{
    proof {
        lemma_ceil_div_le((bytes + 1) as nat, width as nat);
    }
    let all: u128 = bytes as u128 + 1;
    let wide: u128 = width as u128;
    if all % wide == 0 {
        all / wide
    } else {
        all / wide + 1
    }
}

/// Counts the rows that `text` takes on a screen `width` wide.
pub fn count_rows(text: &str, width: usize) -> (rows: usize)
    requires
        width > 0,
    ensures
        rows == capped(text_rows(text@, width as nat)),
{
    let ghost all = text@;
    let bytes: usize = text.as_bytes().len();
    assert(byte_len(all) == bytes);
    let mut total: u128 = 0;
    let mut current: usize = 0;
    let mut after_return: bool = false;
    let ghost mut line: Seq<char> = seq![];
    let ghost mut done: nat = 0;
    assert(line + all.skip(0) =~= all);
    assert(all.skip(0) =~= all);
    for c in it: text.chars()
        invariant
            width > 0,
            it.seq() == all,
            byte_len(all) <= usize::MAX,
            no_feed(line),
            current == byte_len(line),
            after_return == (line.len() > 0 && line.last() == '\r'),
            done + byte_len(line) + byte_len(all.skip(it.index() as int)) == byte_len(all),
            total <= done,
            text_rows(all, width as nat) == total + text_rows(
                line + all.skip(it.index() as int),
                width as nat,
            ),
    {
        let ghost before = all.skip(it.index() as int);
        let ghost after = all.skip(it.index() as int + 1);
        assert(before.drop_first() =~= after);
        assert(before[0] == c);
        proof {
            lemma_byte_len_add(seq![c], after);
            assert(seq![c] + after =~= before);
            lemma_byte_len_push(seq![], c);
            assert(Seq::<char>::empty().push(c) =~= seq![c]);
        }
        if c == '\n' {
            if after_return {
                proof {
                    lemma_byte_len_push(line.drop_last(), '\r');
                    assert(line.drop_last().push('\r') =~= line);
                }
                current = current - 1;
            }
            proof {
                lemma_rows_unfold(line, before, width as nat);
            }
            total = total + count_line(current, width);
            current = 0;
            after_return = false;
            proof {
                done = done + byte_len(line) + 1;
                line = seq![];
                assert(line + after =~= after);
            }
        } else {
            proof {
                lemma_byte_len_push(line, c);
                assert(line.push(c) + after =~= line + before);
                line = line.push(c);
            }
            current = current + char_bytes(c);
            after_return = c == '\r';
        }
    }
    proof {
        assert(all.skip(all.len() as int) =~= Seq::<char>::empty());
        lemma_rows_unfold(line, all.skip(all.len() as int), width as nat);
        if line.len() > 0 {
            lemma_byte_len_push(line.drop_last(), line.last());
            assert(line.drop_last().push(line.last()) =~= line);
        }
    }
    if current > 0 {
        total = total + count_line(current, width);
    }
    if total <= usize::MAX as u128 {
        total as usize
    } else {
        usize::MAX
    }
}

/// Rounded up, a quotient is the least number that makes the dividend when it is multiplied with
/// the divisor.
pub proof fn law_rounding_up(a: nat, b: nat)
    requires
        b > 0,
    ensures
        ceil_div(a, b) * b >= a,
        forall|q: int| #[trigger] (q * b) >= a ==> ceil_div(a, b) <= q,
{
    let q = a / b;
    vstd::arithmetic::div_mod::lemma_fundamental_div_mod(a as int, b as int);
    assert((q + 1) * b == b * q + b) by (nonlinear_arith);
    assert(q * b == b * q) by (nonlinear_arith);
    let c = ceil_div(a, b);
    assert forall|p: int| #[trigger] (p * b) >= a implies c <= p by {
        if c > p {
            assert((c - 1) * b >= p * b) by (nonlinear_arith)
                requires
                    c - 1 >= p,
                    b > 0,
            ;
            assert((c - 1) * b == c * b - b) by (nonlinear_arith);
        }
    }
}

/// A number that is written down reads as that number, and is not written with a zero in front.
pub proof fn law_decimal_reads_back(n: nat)
    ensures
        decimal(n).fold_left(0int, |read: int, c: char| read * 10 + (c as u32 - '0' as u32)) == n,
        forall|i: int| 0 <= i < decimal(n).len() ==> '0' <= #[trigger] decimal(n)[i] <= '9',
        decimal(n).len() > 1 ==> decimal(n)[0] != '0',
        decimal(n).len() > 0,
    decreases n,
{
    let read = |read: int, c: char| read * 10 + (c as u32 - '0' as u32);
    lemma_decimal_digits(n);
    reveal_with_fuel(Seq::fold_left, 2);
    if n >= 10 {
        law_decimal_reads_back(n / 10);
        assert(decimal(n).drop_last() =~= decimal(n / 10));
        assert(decimal(n).last() == digit(n % 10));
        if n / 10 < 10 {
            assert(decimal(n / 10)[0] == digit(n / 10));
        }
        assert(decimal(n)[0] == decimal(n / 10)[0]);
    } else {
        assert(decimal(n).drop_last() =~= Seq::<char>::empty());
        assert(decimal(n).last() == digit(n));
    }
}

/// A text is read line by line: what stands before its first line feed is its first line, without
/// a carriage return at its end, and its other lines are those of what stands behind. A last line
/// without a line feed keeps all it has, unless it is empty.
pub proof fn law_lines_end_at_feeds(line: Seq<char>, rest: Seq<char>)
    requires
        !line.contains('\n'),
    ensures
        lines(Seq::<char>::empty()).len() == 0,
        line.len() > 0 ==> lines(line) == seq![line],
        line.len() > 0 && line.last() == '\r' ==> lines(line.push('\n') + rest) == seq![
            line.drop_last(),
        ] + lines(rest),
        line.len() == 0 || line.last() != '\r' ==> lines(line.push('\n') + rest) == seq![line]
            + lines(rest),
{
    assert forall|i: int| 0 <= i < line.len() implies line[i] != '\n' by {
        assert(line.contains(line[i]));
    }
    let fed = seq!['\n'] + rest;
    assert(line.push('\n') + rest =~= line + fed);
    lemma_line_end_at(line, fed);
    assert((line + fed).take(line.len() as int) =~= line);
    assert((line + fed).skip(line.len() as int + 1) =~= rest);
    lemma_line_end_at(line, seq![]);
    assert(line + Seq::<char>::empty() =~= line);
}

/// The rows of a text are those of its lines: a line takes the least number of rows that has room
/// for its bytes and a cursor.
pub proof fn law_rows_have_room(line: Seq<char>, rest: Seq<char>, width: nat)
    requires
        width > 0,
        !line.contains('\n'),
        line.len() == 0 || line.last() != '\r',
    ensures
        text_rows(Seq::<char>::empty(), width) == 0,
        ({
            let rows = text_rows(line.push('\n') + rest, width) - text_rows(rest, width);
            let bytes = vstd::utf8::encode_utf8(line).len();
            &&& rows * width >= bytes + 1
            &&& (rows - 1) * width < bytes + 1
        }),
        line.len() > 0 ==> text_rows(line.push('\n') + rest, width) - text_rows(rest, width)
            == text_rows(line, width),
{
    assert forall|i: int| 0 <= i < line.len() implies line[i] != '\n' by {
        assert(line.contains(line[i]));
    }
    let fed = seq!['\n'] + rest;
    assert(line.push('\n') + rest =~= line + fed);
    assert(fed.drop_first() =~= rest);
    lemma_rows_unfold(line, fed, width);
    lemma_rows_unfold(line, seq![], width);
    lemma_rows_unfold(seq![], seq![], width);
    assert(Seq::<char>::empty() + Seq::<char>::empty() =~= Seq::<char>::empty());
    assert(line + Seq::<char>::empty() =~= line);
    let bytes = byte_len(line);
    let rows = line_rows(line, width) as int;
    law_rounding_up(bytes + 1, width);
    if (rows - 1) * width >= bytes + 1 {
        assert(rows <= rows - 1);
    }
}

/// A carriage return in front of a line feed takes no room.
pub proof fn law_carriage_returns_take_no_room(line: Seq<char>, rest: Seq<char>, width: nat)
    requires
        !line.contains('\n'),
        line.len() > 0,
        line.last() == '\r',
        line.len() > 1 ==> line[line.len() - 2] != '\r',
    ensures
        text_rows(line.push('\n') + rest, width) == text_rows(
            line.drop_last().push('\n') + rest,
            width,
        ),
{
    assert forall|i: int| 0 <= i < line.len() implies line[i] != '\n' by {
        assert(line.contains(line[i]));
    }
    let fed = seq!['\n'] + rest;
    let front = line.drop_last();
    assert(line.push('\n') + rest =~= line + fed);
    assert(front.push('\n') + rest =~= front + fed);
    lemma_rows_unfold(line, fed, width);
    lemma_rows_unfold(front, fed, width);
}

/// Rows are counted as far as they can be.
pub proof fn law_rows_are_counted_as_far_as_they_can_be(rows: nat)
    ensures
        rows <= usize::MAX ==> capped(rows) == rows,
        rows > usize::MAX ==> capped(rows) == usize::MAX,
{
}

/// A last line without a line feed takes the least number of rows that has room for all its bytes
/// and a cursor.
pub proof fn law_last_lines_have_room(line: Seq<char>, width: nat)
    requires
        width > 0,
        line.len() > 0,
        !line.contains('\n'),
    ensures
        ({
            let rows = text_rows(line, width) as int;
            let bytes = vstd::utf8::encode_utf8(line).len();
            &&& rows * width >= bytes + 1
            &&& (rows - 1) * width < bytes + 1
        }),
{
    assert forall|i: int| 0 <= i < line.len() implies line[i] != '\n' by {
        assert(line.contains(line[i]));
    }
    lemma_rows_unfold(line, seq![], width);
    assert(line + Seq::<char>::empty() =~= line);
    let rows = line_rows(line, width) as int;
    law_rounding_up(byte_len(line) + 1, width);
    if (rows - 1) * width >= byte_len(line) + 1 {
        assert(rows <= rows - 1);
    }
}

} // verus!
