//! What numbers, letters and lines of text promise.

use vstd::prelude::*;

use crate::file_snapshot::{magnitude, padded_text, signed_text, FileFingerprint};
use crate::text::{chomp, decimal_text, digit, line_end, lines_from, lines_of, lower_text, occurs_at, precedes};

verus! {

broadcast use vstd::string::group_string_axioms;

/// The value of a character as a decimal digit.
pub open spec fn digit_value(c: char) -> int {
    c as u32 - 48
}

/// The number that a text of decimal digits writes.
pub open spec fn number_of(text: Seq<char>) -> int
    decreases text.len(),
{
    if text.len() == 0 {
        0
    } else {
        10 * number_of(text.drop_last()) + digit_value(text.last())
    }
}

/// Whether a text has only decimal digits.
pub open spec fn all_digits(text: Seq<char>) -> bool {
    forall|i: int| 0 <= i < text.len() ==> 0 <= digit_value(#[trigger] text[i]) <= 9
}

/// A number in decimal notation has only digits, no zero before them, and can be
/// read back.
pub proof fn law_decimal_numbers_can_be_read_back(n: nat)
    ensures
        number_of(decimal_text(n)) == n,
        all_digits(decimal_text(n)),
        decimal_text(n).len() > 0,
        n > 0 ==> decimal_text(n)[0] != '0',
    decreases n,
{
    assert(digit_value(digit(n)) == n % 10);
    if n < 10 {
        let text = seq![digit(n)];
        assert(decimal_text(n) == text);
        assert(text.drop_last() =~= Seq::<char>::empty());
        assert(number_of(text.drop_last()) == 0);
        assert(text.last() == digit(n));
    } else {
        law_decimal_numbers_can_be_read_back(n / 10);
        let before = decimal_text(n / 10);
        assert(decimal_text(n).drop_last() =~= before);
        assert(decimal_text(n).last() == digit(n));
        assert forall|i: int| 0 <= i < decimal_text(n).len() implies 0 <= digit_value(#[trigger] decimal_text(n)[i]) <= 9 by {
            if i < before.len() {
                assert(decimal_text(n)[i] == before[i]);
            }
        }
        assert(decimal_text(n)[0] == before[0]);
    }
}

/// Two numbers have one notation only where they are equal.
pub proof fn law_decimal_numbers_are_distinct(a: nat, b: nat)
    requires
        decimal_text(a) == decimal_text(b),
    ensures
        a == b,
{
    law_decimal_numbers_can_be_read_back(a);
    law_decimal_numbers_can_be_read_back(b);
}

proof fn lemma_zeros_before(zeros: nat, text: Seq<char>)
    ensures
        number_of(Seq::new(zeros, |i: int| '0') + text) == number_of(text),
    decreases zeros + text.len(),
{
    let all = Seq::new(zeros, |i: int| '0') + text;
    if text.len() > 0 {
        lemma_zeros_before(zeros, text.drop_last());
        assert(all.drop_last() =~= Seq::new(zeros, |i: int| '0') + text.drop_last());
    } else if zeros > 0 {
        lemma_zeros_before((zeros - 1) as nat, text);
        assert(all.drop_last() =~= Seq::new((zeros - 1) as nat, |i: int| '0') + text);
        assert(all.last() == '0');
        assert(number_of(Seq::<char>::empty()) == 0);
        assert(text =~= Seq::<char>::empty());
    } else {
        assert(all =~= text);
    }
}

/// A padded number has at least the given width, and can be read back too.
pub proof fn law_padded_numbers_can_be_read_back(n: nat, width: nat)
    ensures
        number_of(padded_text(n, width)) == n,
        padded_text(n, width).len() >= width,
        padded_text(n, width).len() == width || padded_text(n, width) == decimal_text(n),
{
    law_decimal_numbers_can_be_read_back(n);
    let digits = decimal_text(n);
    if digits.len() < width {
        lemma_zeros_before((width - digits.len()) as nat, digits);
    }
}

/// A signed number has a minus sign exactly where it is negative, before its
/// distance from zero.
pub proof fn law_signed_numbers_have_their_sign(n: int)
    ensures
        n < 0 ==> signed_text(n)[0] == '-' && signed_text(n).drop_first() == decimal_text((-n) as nat),
        n >= 0 ==> signed_text(n) == decimal_text(n as nat) && signed_text(n)[0] != '-',
{
    if n < 0 {
        assert(signed_text(n).drop_first() =~= decimal_text((-n) as nat));
    } else {
        law_decimal_numbers_can_be_read_back(n as nat);
        assert(0 <= digit_value(decimal_text(n as nat)[0]) <= 9);
    }
}

/// The first `n` parts with colons between them.
spec fn with_colons(parts: Seq<Seq<char>>, n: int) -> Seq<char>
    decreases n,
{
    if n <= 1 {
        parts[0]
    } else {
        with_colons(parts, n - 1) + ":"@ + parts[n - 1]
    }
}

proof fn lemma_cancel_end(a: Seq<char>, b: Seq<char>, end: Seq<char>)
    requires
        a + end == b + end,
    ensures
        a == b,
{
    assert((a + end).len() == a.len() + end.len());
    assert((b + end).len() == b.len() + end.len());
    assert forall|i: int| 0 <= i < a.len() implies a[i] == b[i] by {
        assert((a + end)[i] == a[i] && (b + end)[i] == b[i]);
    }
    assert(a =~= b);
}

proof fn lemma_cancel_start(start: Seq<char>, a: Seq<char>, b: Seq<char>)
    requires
        start + a == start + b,
    ensures
        a == b,
{
    assert((start + a).len() == start.len() + a.len());
    assert((start + b).len() == start.len() + b.len());
    assert forall|i: int| 0 <= i < a.len() implies a[i] == b[i] by {
        assert((start + a)[start.len() + i] == a[i] && (start + b)[start.len() + i] == b[i]);
    }
    assert(a =~= b);
}

proof fn lemma_same_parts(a: Seq<Seq<char>>, b: Seq<Seq<char>>, n: int)
    requires
        n >= 1,
        forall|i: int| 0 <= i < n ==> #[trigger] a[i] == b[i],
    ensures
        with_colons(a, n) == with_colons(b, n),
    decreases n,
{
    assert(a[0] == b[0]);
    if n > 1 {
        lemma_same_parts(a, b, n - 1);
        assert(a[n - 1] == b[n - 1]);
    }
}

/// Parts that are the same but for one, and the same between colons, are the same.
proof fn lemma_one_part(a: Seq<Seq<char>>, b: Seq<Seq<char>>, n: int, k: int)
    requires
        0 <= k < n,
        forall|i: int| 0 <= i < n && i != k ==> #[trigger] a[i] == b[i],
        with_colons(a, n) == with_colons(b, n),
    ensures
        a[k] == b[k],
    decreases n,
{
    if n > 1 {
        if k == n - 1 {
            lemma_same_parts(a, b, n - 1);
            lemma_cancel_start(with_colons(a, n - 1) + ":"@, a[k], b[k]);
        } else {
            assert(a[n - 1] == b[n - 1]);
            lemma_cancel_end(with_colons(a, n - 1) + ":"@, with_colons(b, n - 1) + ":"@, a[n - 1]);
            lemma_cancel_end(with_colons(a, n - 1), with_colons(b, n - 1), ":"@);
            lemma_one_part(a, b, n - 1, k);
        }
    }
}

spec fn identity_parts(file: FileFingerprint) -> Seq<Seq<char>> {
    seq![
        decimal_text(file.modified_parts().0),
        padded_text(file.modified_parts().1, 9),
        decimal_text(file.device as nat),
        decimal_text(file.inode as nat),
        signed_text(file.change_seconds as int),
        padded_text(magnitude(file.change_nanoseconds as int), 9),
    ]
}

proof fn lemma_identity(file: FileFingerprint)
    ensures
        file.identity_text() == with_colons(identity_parts(file), 6),
{
    reveal_with_fuel(with_colons, 7);
}

proof fn lemma_signed_distinct(a: int, b: int)
    requires
        signed_text(a) == signed_text(b),
    ensures
        a == b,
{
    law_signed_numbers_have_their_sign(a);
    law_signed_numbers_have_their_sign(b);
    if a < 0 && b < 0 {
        law_decimal_numbers_are_distinct((-a) as nat, (-b) as nat);
    } else if a >= 0 && b >= 0 {
        law_decimal_numbers_are_distinct(a as nat, b as nat);
    }
}

/// A file whose device, node, time of change or time of modification differs, and
/// nothing else of these, has another identity.
pub proof fn law_a_changed_file_has_another_identity(a: FileFingerprint, b: FileFingerprint)
    requires
        a.identity_text() == b.identity_text(),
    ensures
        a.modified_parts() == b.modified_parts() && a.inode == b.inode && a.change_seconds == b.change_seconds && magnitude(
            a.change_nanoseconds as int,
        ) == magnitude(b.change_nanoseconds as int) ==> a.device == b.device,
        a.modified_parts() == b.modified_parts() && a.device == b.device && a.change_seconds == b.change_seconds && magnitude(
            a.change_nanoseconds as int,
        ) == magnitude(b.change_nanoseconds as int) ==> a.inode == b.inode,
        a.modified_parts() == b.modified_parts() && a.device == b.device && a.inode == b.inode && magnitude(
            a.change_nanoseconds as int,
        ) == magnitude(b.change_nanoseconds as int) ==> a.change_seconds == b.change_seconds,
        a.modified_parts() == b.modified_parts() && a.device == b.device && a.inode == b.inode && a.change_seconds
            == b.change_seconds ==> magnitude(a.change_nanoseconds as int) == magnitude(b.change_nanoseconds as int),
        a.modified_parts().1 == b.modified_parts().1 && a.device == b.device && a.inode == b.inode && a.change_seconds
            == b.change_seconds && magnitude(a.change_nanoseconds as int) == magnitude(b.change_nanoseconds as int)
            ==> a.modified_parts().0 == b.modified_parts().0,
        a.modified_parts().0 == b.modified_parts().0 && a.device == b.device && a.inode == b.inode && a.change_seconds
            == b.change_seconds && magnitude(a.change_nanoseconds as int) == magnitude(b.change_nanoseconds as int)
            ==> a.modified_parts().1 == b.modified_parts().1,
{
    let x = identity_parts(a);
    let y = identity_parts(b);
    lemma_identity(a);
    lemma_identity(b);
    if forall|i: int| 0 <= i < 6 && i != 0 ==> #[trigger] x[i] == y[i] {
        lemma_one_part(x, y, 6, 0);
        law_decimal_numbers_are_distinct(a.modified_parts().0, b.modified_parts().0);
    }
    if forall|i: int| 0 <= i < 6 && i != 1 ==> #[trigger] x[i] == y[i] {
        lemma_one_part(x, y, 6, 1);
        law_padded_numbers_can_be_read_back(a.modified_parts().1, 9);
        law_padded_numbers_can_be_read_back(b.modified_parts().1, 9);
    }
    if forall|i: int| 0 <= i < 6 && i != 2 ==> #[trigger] x[i] == y[i] {
        lemma_one_part(x, y, 6, 2);
        law_decimal_numbers_are_distinct(a.device as nat, b.device as nat);
    }
    if forall|i: int| 0 <= i < 6 && i != 3 ==> #[trigger] x[i] == y[i] {
        lemma_one_part(x, y, 6, 3);
        law_decimal_numbers_are_distinct(a.inode as nat, b.inode as nat);
    }
    if forall|i: int| 0 <= i < 6 && i != 4 ==> #[trigger] x[i] == y[i] {
        lemma_one_part(x, y, 6, 4);
        lemma_signed_distinct(a.change_seconds as int, b.change_seconds as int);
    }
    if forall|i: int| 0 <= i < 6 && i != 5 ==> #[trigger] x[i] == y[i] {
        lemma_one_part(x, y, 6, 5);
        law_padded_numbers_can_be_read_back(magnitude(a.change_nanoseconds as int), 9);
        law_padded_numbers_can_be_read_back(magnitude(b.change_nanoseconds as int), 9);
    }
}

/// Small letters take the place of ASCII capitals, and of nothing else; to do so
/// again changes nothing.
pub proof fn law_small_letters_take_the_place_of_capitals(text: Seq<char>, i: int)
    requires
        0 <= i < text.len(),
    ensures
        lower_text(text).len() == text.len(),
        'A' <= text[i] && text[i] <= 'Z' ==> lower_text(text)[i] as u32 == text[i] as u32 + 32,
        !('A' <= text[i] && text[i] <= 'Z') ==> lower_text(text)[i] == text[i],
        lower_text(lower_text(text)) == lower_text(text),
{
    let once = lower_text(text);
    assert forall|k: int| 0 <= k < text.len() implies #[trigger] lower_text(once)[k] == once[k] by {}
    assert(lower_text(once) =~= once);
}

/// A text stands at a place of another one where all its characters do.
pub proof fn law_texts_stand_where_their_characters_do(whole: Seq<char>, part: Seq<char>, at: int)
    ensures
        occurs_at(whole, part, at) <==> 0 <= at && at + part.len() <= whole.len() && forall|i: int|
            0 <= i < part.len() ==> #[trigger] part[i] == whole[at + i],
{
    if 0 <= at && at + part.len() <= whole.len() {
        let piece = whole.subrange(at, at + part.len());
        if forall|i: int| 0 <= i < part.len() ==> #[trigger] part[i] == whole[at + i] {
            assert(piece =~= part);
        }
        if piece == part {
            assert forall|i: int| 0 <= i < part.len() implies #[trigger] part[i] == whole[at + i] by {
                assert(piece[i] == whole[at + i]);
            }
        }
    }
}

/// Of two texts one comes before the other, unless they are the same.
pub proof fn law_texts_have_an_order(a: Seq<char>, b: Seq<char>)
    ensures
        a == b <==> !precedes(a, b) && !precedes(b, a),
        !(precedes(a, b) && precedes(b, a)),
    decreases a.len(),
{
    if a.len() > 0 && b.len() > 0 {
        law_texts_have_an_order(a.drop_first(), b.drop_first());
        if a[0] == b[0] && a.drop_first() == b.drop_first() {
            assert(a =~= seq![a[0]] + a.drop_first());
            assert(b =~= seq![b[0]] + b.drop_first());
        }
    } else if a.len() == 0 && b.len() == 0 {
        assert(a =~= b);
    }
}

/// A text comes before another one where it is the start of it, or where the
/// first character in which they differ is the lower one.
pub proof fn law_the_first_difference_decides(a: Seq<char>, b: Seq<char>, at: int)
    requires
        0 <= at <= a.len(),
        at <= b.len(),
        forall|i: int| 0 <= i < at ==> a[i] == b[i],
    ensures
        at == a.len() && at < b.len() ==> precedes(a, b),
        at < a.len() && at < b.len() && a[at] < b[at] ==> precedes(a, b),
        at < a.len() && at < b.len() && b[at] < a[at] ==> precedes(b, a),
    decreases at,
{
    if at > 0 {
        let (x, y) = (a.drop_first(), b.drop_first());
        assert forall|i: int| 0 <= i < at - 1 implies x[i] == y[i] by {
            assert(a[i + 1] == b[i + 1]);
        }
        law_the_first_difference_decides(x, y, at - 1);
        assert(a[0] == b[0]);
    }
}

proof fn lemma_line_end(text: Seq<char>, from: int, end: int)
    requires
        0 <= from <= end <= text.len(),
        forall|i: int| from <= i < end ==> text[i] != '\n',
        end < text.len() ==> text[end] == '\n',
    ensures
        line_end(text, from) == end,
    decreases end - from,
{
    if from < end {
        lemma_line_end(text, from + 1, end);
    }
}

proof fn lemma_some_line_end(text: Seq<char>, from: int)
    requires
        0 <= from <= text.len(),
    ensures
        from <= line_end(text, from) <= text.len(),
        forall|i: int| from <= i < line_end(text, from) ==> text[i] != '\n',
        line_end(text, from) < text.len() ==> text[line_end(text, from)] == '\n',
    decreases text.len() - from,
{
    if from < text.len() && text[from] != '\n' {
        lemma_some_line_end(text, from + 1);
    }
}

/// The lines from a place on are those of the text from there on.
proof fn lemma_lines_from(before: Seq<char>, text: Seq<char>, from: int)
    requires
        0 <= from <= text.len(),
    ensures
        lines_from(before + text, before.len() + from) == lines_from(text, from),
    decreases text.len() - from,
{
    let all = before + text;
    if from < text.len() {
        lemma_some_line_end(text, from);
        let end = line_end(text, from);
        assert forall|i: int| before.len() + from <= i < before.len() + end implies all[i] != '\n' by {
            assert(all[i] == text[i - before.len()]);
        }
        lemma_line_end(all, before.len() + from, before.len() + end);
        assert(all.subrange(before.len() + from, before.len() + end) =~= text.subrange(from, end));
        if end < text.len() {
            lemma_lines_from(before, text, end + 1);
        }
    }
}

/// A line that ends in a line feed is the first one of its text, without the feed
/// and a carriage return before it; the others follow. A text without a line feed
/// is one line, and an empty text has none.
pub proof fn law_lines_end_at_line_feeds(line: Seq<char>, rest: Seq<char>)
    requires
        !line.contains('\n'),
    ensures
        lines_of(line + seq!['\n'] + rest) == seq![chomp(line)] + lines_of(rest),
        line.len() > 0 ==> lines_of(line) == seq![line],
        lines_of(Seq::<char>::empty()).len() == 0,
        line.len() > 0 && line.last() == '\r' ==> chomp(line) == line.drop_last(),
        line.len() == 0 || line.last() != '\r' ==> chomp(line) == line,
{
    let all = line + seq!['\n'] + rest;
    let end = line.len() as int;
    assert forall|i: int| 0 <= i < end implies all[i] != '\n' by {
        assert(line.contains(line[i]));
    }
    lemma_line_end(all, 0, end);
    assert(all.subrange(0, end) =~= line);
    lemma_lines_from(line + seq!['\n'], rest, 0);
    assert((line + seq!['\n']).len() == end + 1);
    if line.len() > 0 {
        assert forall|i: int| 0 <= i < end implies line[i] != '\n' by {
            assert(line.contains(line[i]));
        }
        lemma_line_end(line, 0, end);
        assert(line.subrange(0, end) =~= line);
    }
}

} // verus!
