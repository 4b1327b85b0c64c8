//! What the terminal is sent and what is read from JSON lines.

use vstd::prelude::*;

use crate::file_snapshot::blank;
use crate::json::{document_outcome, json_array, json_parsed, line_values, lines_outcome, JsonErrorView};
use crate::kitty_graphics::{
    base64_text, carried, data_frames, pending_bytes, protocol, protocol_of, symbol, KittyGraphics, OperationView,
};
use crate::text::{byte_length, decimal_text, lines_of};

verus! {

broadcast use vstd::string::group_string_axioms;

/// The symbols of Base64 are distinct.
pub proof fn law_symbols_are_distinct(a: int, b: int)
    requires
        0 <= a < 64,
        0 <= b < 64,
        symbol(a) == symbol(b),
    ensures
        a == b,
        symbol(a) != '=',
{
}

/// Every three bytes become four symbols that stand for the same 24 bits, and the
/// rest of the bytes follows.
pub proof fn law_three_bytes_become_four_symbols(bytes: Seq<u8>, at: int)
    requires
        0 <= at,
        at + 3 <= bytes.len(),
    ensures
        ({
            let text = base64_text(bytes, at);
            exists|w: int, x: int, y: int, z: int|
                #![trigger symbol(w), symbol(x), symbol(y), symbol(z)]
                0 <= w < 64 && 0 <= x < 64 && 0 <= y < 64 && 0 <= z < 64 && text.len() >= 4 && text[0] == symbol(w) && text[1]
                    == symbol(x) && text[2] == symbol(y) && text[3] == symbol(z) && 262_144 * w + 4096 * x + 64 * y + z == 65_536
                    * bytes[at] + 256 * bytes[at + 1] + bytes[at + 2]
        }),
        base64_text(bytes, at).subrange(4, base64_text(bytes, at).len() as int) == base64_text(bytes, at + 3),
{
    let a = bytes[at] as int;
    let b = bytes[at + 1] as int;
    let c = bytes[at + 2] as int;
    let text = base64_text(bytes, at);
    let (w, x, y, z) = (a / 4, (a % 4) * 16 + b / 16, (b % 16) * 4 + c / 64, c % 64);
    assert(text[0] == symbol(w) && text[1] == symbol(x) && text[2] == symbol(y) && text[3] == symbol(z));
    assert(text.subrange(4, text.len() as int) =~= base64_text(bytes, at + 3));
}

/// One or two bytes at the end are padded to four symbols.
pub proof fn law_the_last_bytes_are_padded(bytes: Seq<u8>, at: int)
    requires
        0 <= at < bytes.len(),
        at + 3 > bytes.len(),
    ensures
        base64_text(bytes, at).len() == 4,
        base64_text(bytes, at)[0] == symbol(bytes[at] as int / 4),
        base64_text(bytes, at)[3] == '=',
        at + 1 == bytes.len() ==> base64_text(bytes, at)[2] == '=' && base64_text(bytes, at)[1] == symbol((bytes[at] as int % 4) * 16),
        at + 2 == bytes.len() ==> base64_text(bytes, at)[1] == symbol((bytes[at] as int % 4) * 16 + bytes[at + 1] as int / 16)
            && base64_text(bytes, at)[2] == symbol((bytes[at + 1] as int % 16) * 4),
{
    assert(base64_text(bytes, at + 3).len() == 0);
}

/// The text is four symbols long for every three bytes, the last ones rounded up.
pub proof fn law_the_text_is_a_third_longer(bytes: Seq<u8>, at: int)
    requires
        0 <= at,
    ensures
        at <= bytes.len() ==> 3 * base64_text(bytes, at).len() == 4 * (bytes.len() - at + (3 - (bytes.len() - at) % 3) % 3),
        at >= bytes.len() ==> base64_text(bytes, at).len() == 0,
    decreases if at < bytes.len() { bytes.len() - at } else { 0 },
{
    if at < bytes.len() {
        law_the_text_is_a_third_longer(bytes, at + 3);
    }
}

/// Data is sent in frames of up to 4096 symbols. Each frame says whether another
/// one follows, and the first one names the image.
pub proof fn law_data_is_sent_in_frames(id: u32, data: Seq<char>, at: int)
    requires
        0 <= at < data.len(),
    ensures
        at == 0 && data.len() <= 4096 ==> data_frames(id, data, at) == "\u{1b}_Ga=t,f=100,i="@ + decimal_text(id as nat) + ",q=2,m="@
            + "0"@ + ";"@ + data + "\u{1b}\\"@,
        at == 0 && data.len() > 4096 ==> data_frames(id, data, at) == "\u{1b}_Ga=t,f=100,i="@ + decimal_text(id as nat)
            + ",q=2,m="@ + "1"@ + ";"@ + data.subrange(0, 4096) + "\u{1b}\\"@ + data_frames(id, data, 4096),
        at > 0 && data.len() - at <= 4096 ==> data_frames(id, data, at) == "\u{1b}_Gq=2,m="@ + "0"@ + ";"@ + data.subrange(
            at,
            data.len() as int,
        ) + "\u{1b}\\"@,
        at > 0 && data.len() - at > 4096 ==> data_frames(id, data, at) == "\u{1b}_Gq=2,m="@ + "1"@ + ";"@ + data.subrange(
            at,
            at + 4096,
        ) + "\u{1b}\\"@ + data_frames(id, data, at + 4096),
{
    assert(data.subrange(0, data.len() as int) =~= data);
    if at + 4096 >= data.len() {
        let none = data_frames(id, data, at + 4096);
        assert(none =~= Seq::<char>::empty());
        let head = if at == 0 {
            "\u{1b}_Ga=t,f=100,i="@ + decimal_text(id as nat) + ",q=2,m="@ + "0"@ + ";"@
        } else {
            "\u{1b}_Gq=2,m="@ + "0"@ + ";"@
        };
        let frame = head + data.subrange(at, data.len() as int) + "\u{1b}\\"@;
        assert(frame + none =~= frame);
    }
}

/// An upload sends the picture and then places it with its size; a deletion names
/// its image, or none.
pub proof fn law_operations_name_their_image(id: u32, png: Seq<u8>, columns: u16, rows: u16)
    ensures
        protocol(OperationView::Upload { id, png, columns, rows }) == data_frames(id, base64_text(png, 0), 0) + "\u{1b}_Ga=p,U=1,i="@
            + decimal_text(id as nat) + ",c="@ + decimal_text(columns as nat) + ",r="@ + decimal_text(rows as nat)
            + ",q=2\u{1b}\\"@,
        protocol(OperationView::Delete(id)) == "\u{1b}_Ga=d,d=I,i="@ + decimal_text(id as nat) + ",q=2\u{1b}\\"@,
        protocol(OperationView::DeleteAll) == "\u{1b}_Ga=d,d=A,q=2\u{1b}\\"@,
{
}

/// Operations are sent one after the other, in their order, and their pictures
/// add up.
pub proof fn law_operations_are_sent_in_order(first: Seq<OperationView>, second: Seq<OperationView>)
    ensures
        protocol_of(first + second) == protocol_of(first) + protocol_of(second),
        pending_bytes(first + second) == pending_bytes(first) + pending_bytes(second),
    decreases second.len(),
{
    if second.len() == 0 {
        assert(first + second =~= first);
        assert(protocol_of(first) + protocol_of(second) =~= protocol_of(first));
    } else {
        let rest = second.drop_last();
        law_operations_are_sent_in_order(first, rest);
        assert((first + second).drop_last() =~= first + rest);
        assert((first + second).last() == second.last());
        assert(protocol_of(first) + (protocol_of(rest) + protocol(second.last())) =~= protocol_of(first) + protocol_of(rest)
            + protocol(second.last()));
    }
}

/// An operation alone is sent as itself, and carries its picture.
pub proof fn law_one_operation_is_sent_as_it_is(operation: OperationView)
    ensures
        protocol_of(seq![operation]) == protocol(operation),
        pending_bytes(seq![operation]) == (if operation is Upload { operation->png.len() } else { 0nat }),
        carried(operation) == pending_bytes(seq![operation]),
{
    let one = seq![operation];
    assert(one.drop_last() =~= Seq::<OperationView>::empty());
    assert(one.last() == operation);
    assert(protocol_of(one.drop_last()) =~= Seq::<char>::empty());
    assert(pending_bytes(one.drop_last()) == 0);
    assert(Seq::<char>::empty() + protocol(operation) =~= protocol(operation));
}

/// An upload is accepted exactly where the terminal draws images, the image has a
/// number and a size, and neither it nor what waits is too much.
pub proof fn law_uploads_keep_to_the_limits(graphics: KittyGraphics, id: u32, png: Seq<u8>, columns: u16, rows: u16)
    ensures
        graphics.accepts(id, png, columns, rows) <==> {
            &&& graphics.is_available()
            &&& 1 <= id <= 16_777_215
            &&& 1 <= png.len() <= 12_582_912
            &&& columns > 0 && rows > 0
            &&& graphics.pending().len() < 256
            &&& pending_bytes(graphics.pending()) + png.len() <= 33_554_432
        },
{
}

/// How many lines from one place up to another one are not blank.
pub open spec fn filled_lines(all: Seq<Seq<char>>, from: int, to: int) -> int
    decreases to - from,
{
    if from >= to {
        0
    } else if blank(all[from]) {
        filled_lines(all, from + 1, to)
    } else {
        1 + filled_lines(all, from + 1, to)
    }
}

proof fn lemma_filled(all: Seq<Seq<char>>, from: int, to: int)
    requires
        from <= to,
    ensures
        0 <= filled_lines(all, from, to) <= to - from,
    decreases to - from,
{
    if from < to {
        lemma_filled(all, from + 1, to);
    }
}

/// JSON lines are read one for one: every line that is not blank gives its own
/// value, in order, behind those before it; blank lines give none.
pub proof fn law_json_lines_are_read_one_for_one(
    all: Seq<Seq<char>>,
    at: int,
    done: Seq<serde_json::Value>,
    max_items: nat,
    i: int,
)
    requires
        0 <= at <= all.len(),
        line_values(all, at, done, max_items) is Ok,
    ensures
        ({
            let values = line_values(all, at, done, max_items)->Ok_0;
            &&& values.len() == done.len() + filled_lines(all, at, all.len() as int)
            &&& values.len() <= max_items || values.len() == done.len()
            &&& values.subrange(0, done.len() as int) == done
            &&& at <= i < all.len() && !blank(all[i]) ==> 0 <= filled_lines(all, at, i) && done.len() + filled_lines(all, at, i)
                < values.len() && json_parsed(all[i]) == Ok::<serde_json::Value, Seq<char>>(
                values[done.len() + filled_lines(all, at, i)],
            )
        }),
    decreases all.len() - at,
{
    if at < all.len() {
        lemma_filled(all, at + 1, all.len() as int);
        if blank(all[at]) {
            law_json_lines_are_read_one_for_one(all, at + 1, done, max_items, i);
        } else {
            let value = json_parsed(all[at])->Ok_0;
            let more = done.push(value);
            law_json_lines_are_read_one_for_one(all, at + 1, more, max_items, i);
            let values = line_values(all, at, done, max_items)->Ok_0;
            assert(values.subrange(0, more.len() as int) == more);
            assert(values.subrange(0, done.len() as int) =~= done) by {
                assert forall|k: int| 0 <= k < done.len() implies values[k] == done[k] by {
                    assert(values.subrange(0, more.len() as int)[k] == more[k]);
                }
            }
            assert(values[done.len() as int] == value) by {
                assert(values.subrange(0, more.len() as int)[done.len() as int] == value);
            }
            if at < i {
                lemma_filled(all, at + 1, i);
            }
        }
    } else {
        assert(done.subrange(0, done.len() as int) =~= done);
    }
}

/// JSON lines are refused only for a line that is no JSON, which the error names,
/// or for too many lines.
pub proof fn law_json_lines_are_refused_for_a_line(
    all: Seq<Seq<char>>,
    at: int,
    done: Seq<serde_json::Value>,
    max_items: nat,
)
    requires
        0 <= at <= all.len(),
        done.len() <= max_items,
    ensures
        line_values(all, at, done, max_items) matches Err(error) ==> match error {
            JsonErrorView::TooManyItems { limit } => limit == max_items && done.len() + filled_lines(all, at, all.len() as int)
                > max_items,
            JsonErrorView::InvalidLine { line, message } => at < line <= all.len() && !blank(all[line - 1]) && json_parsed(
                all[line - 1],
            ) == Err::<serde_json::Value, Seq<char>>(message),
            _ => false,
        },
    decreases all.len() - at,
{
    if at < all.len() {
        lemma_filled(all, at + 1, all.len() as int);
        if blank(all[at]) {
            law_json_lines_are_refused_for_a_line(all, at + 1, done, max_items);
        } else if done.len() < max_items {
            if let Ok(value) = json_parsed(all[at]) {
                law_json_lines_are_refused_for_a_line(all, at + 1, done.push(value), max_items);
            }
        }
    }
}

/// A text over the limit is refused with both sizes; any other is what it parses
/// to.
pub proof fn law_json_texts_keep_to_the_limit(text: Seq<char>, max_bytes: nat, max_items: nat)
    ensures
        byte_length(text) > max_bytes ==> document_outcome(text, max_bytes) == Err::<serde_json::Value, JsonErrorView>(
            JsonErrorView::TooManyBytes { bytes: byte_length(text), limit: max_bytes },
        ) && lines_outcome(text, max_bytes, max_items) == Err::<serde_json::Value, JsonErrorView>(
            JsonErrorView::TooManyBytes { bytes: byte_length(text), limit: max_bytes },
        ),
        byte_length(text) <= max_bytes ==> match json_parsed(text) {
            Ok(value) => document_outcome(text, max_bytes) == Ok::<serde_json::Value, JsonErrorView>(value),
            Err(message) => document_outcome(text, max_bytes) == Err::<serde_json::Value, JsonErrorView>(
                JsonErrorView::Invalid(message),
            ),
        },
        byte_length(text) <= max_bytes && line_values(lines_of(text), 0, Seq::empty(), max_items) is Ok ==> lines_outcome(
            text,
            max_bytes,
            max_items,
        ) == Ok::<serde_json::Value, JsonErrorView>(json_array(line_values(lines_of(text), 0, Seq::empty(), max_items)->Ok_0)),
{
}

/// A text that was refused at one limit is refused at every lower one, and one
/// that was accepted is accepted with the same value at every higher one.
pub proof fn law_higher_limits_accept_more(text: Seq<char>, low: nat, high: nat)
    requires
        low <= high,
        document_outcome(text, low) is Ok,
    ensures
        document_outcome(text, high) == document_outcome(text, low),
{
}

} // verus!
