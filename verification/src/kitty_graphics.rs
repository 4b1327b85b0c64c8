//! Queue of Kitty graphics operations.
//!
//! Generated-buffer code may enqueue bounded PNG uploads and deletions; the
//! terminal backend drains them as part of synchronized drawing.

use std::collections::VecDeque;

use base64::engine::general_purpose::STANDARD;
use base64::Engine;
use vstd::prelude::*;

use crate::text::{chars_of, decimal, decimal_text, string_of};

verus! {

pub const MAX_PNG_BYTES: usize = 12_582_912;

pub const CHUNK: usize = 4_096;

pub const MAX_PENDING_OPERATIONS: usize = 256;

pub const MAX_PENDING_PNG_BYTES: usize = 33_554_432;

pub const MAX_IMAGE_ID: u32 = 0x00ff_ffff;

#[derive(Debug)]
pub enum Operation {
    Upload { id: u32, png: Vec<u8>, columns: u16, rows: u16 },
    Delete(u32),
    DeleteAll,
}

pub enum OperationView {
    Upload { id: u32, png: Seq<u8>, columns: u16, rows: u16 },
    Delete(u32),
    DeleteAll,
}

impl View for Operation {
    type V = OperationView;

    open spec fn view(&self) -> OperationView {
        match self {
            Operation::Upload { id, png, columns, rows } => OperationView::Upload {
                id: *id,
                png: png@,
                columns: *columns,
                rows: *rows,
            },
            Operation::Delete(id) => OperationView::Delete(*id),
            Operation::DeleteAll => OperationView::DeleteAll,
        }
    }
}

pub open spec fn operation_views(operations: Seq<Operation>) -> Seq<OperationView> {
    Seq::new(operations.len(), |i: int| operations[i]@)
}

/// The PNG bytes that an operation carries.
pub open spec fn carried(operation: OperationView) -> nat {
    match operation {
        OperationView::Upload { png, .. } => png.len(),
        _ => 0,
    }
}

/// The PNG bytes that the operations carry.
pub open spec fn pending_bytes(operations: Seq<OperationView>) -> nat
    decreases operations.len(),
{
    if operations.len() == 0 {
        0
    } else {
        pending_bytes(operations.drop_last()) + carried(operations.last())
    }
}

/// The character that stands for six bits.
pub open spec fn symbol(bits: int) -> char {
    if bits < 26 {
        (65 + bits) as u8 as char
    } else if bits < 52 {
        (97 + bits - 26) as u8 as char
    } else if bits < 62 {
        (48 + bits - 52) as u8 as char
    } else if bits == 62 {
        '+'
    } else {
        '/'
    }
}

/// The standard Base64 text, with padding, of the bytes from `at` on.
pub open spec fn base64_text(bytes: Seq<u8>, at: int) -> Seq<char>
    decreases if at < bytes.len() { bytes.len() - at } else { 0 },
{
    if at >= bytes.len() {
        Seq::empty()
    } else {
        let a = bytes[at] as int;
        let b = if at + 1 < bytes.len() { bytes[at + 1] as int } else { 0 };
        let c = if at + 2 < bytes.len() { bytes[at + 2] as int } else { 0 };
        let third = if at + 1 < bytes.len() { symbol((b % 16) * 4 + c / 64) } else { '=' };
        let fourth = if at + 2 < bytes.len() { symbol(c % 64) } else { '=' };
        seq![symbol(a / 4), symbol((a % 4) * 16 + b / 16), third, fourth] + base64_text(bytes, at + 3)
    }
}

/// `base64::Engine::encode` of the `STANDARD` engine gives the padded
/// standard Base64 text of the bytes.
#[verifier::external_body]
fn encode_base64(bytes: &Vec<u8>) -> (out: String)
    requires
        bytes@.len() <= MAX_PNG_BYTES,
    ensures
        out@ == base64_text(bytes@, 0),
{
    STANDARD.encode(bytes)
}

/// The digit of a flag.
pub open spec fn flag(on: bool) -> Seq<char> {
    if on {
        "1"@
    } else {
        "0"@
    }
}

fn flag_text(on: bool) -> (out: &'static str)
    ensures
        out@ == flag(on),
{
    if on {
        "1"
    } else {
        "0"
    }
}

/// The frames that carry the data from `at` on.
pub open spec fn data_frames(id: u32, data: Seq<char>, at: int) -> Seq<char>
    decreases if at < data.len() { data.len() - at } else { 0 },
{
    if at >= data.len() {
        Seq::empty()
    } else {
        let more = at + CHUNK < data.len();
        let end = if more { at + CHUNK } else { data.len() as int };
        let head = if at == 0 {
            "\u{1b}_Ga=t,f=100,i="@ + decimal_text(id as nat) + ",q=2,m="@ + flag(more) + ";"@
        } else {
            "\u{1b}_Gq=2,m="@ + flag(more) + ";"@
        };
        head + data.subrange(at, end) + "\u{1b}\\"@ + data_frames(id, data, at + CHUNK)
    }
}

/// What the terminal is sent for an operation.
pub open spec fn protocol(operation: OperationView) -> Seq<char> {
    match operation {
        OperationView::Upload { id, png, columns, rows } => data_frames(id, base64_text(png, 0), 0) + "\u{1b}_Ga=p,U=1,i="@
            + decimal_text(id as nat) + ",c="@ + decimal_text(columns as nat) + ",r="@ + decimal_text(rows as nat)
            + ",q=2\u{1b}\\"@,
        OperationView::Delete(id) => "\u{1b}_Ga=d,d=I,i="@ + decimal_text(id as nat) + ",q=2\u{1b}\\"@,
        OperationView::DeleteAll => "\u{1b}_Ga=d,d=A,q=2\u{1b}\\"@,
    }
}

/// What the terminal is sent for the operations, in order.
pub open spec fn protocol_of(operations: Seq<OperationView>) -> Seq<char>
    decreases operations.len(),
{
    if operations.len() == 0 {
        Seq::empty()
    } else {
        protocol_of(operations.drop_last()) + protocol(operations.last())
    }
}

/// What the terminal is sent for an upload of Base64 data.
pub fn write_upload(id: u32, data: &str, columns: u16, rows: u16) -> (out: String)
    ensures
        out@ == data_frames(id, data@, 0) + "\u{1b}_Ga=p,U=1,i="@ + decimal_text(id as nat) + ",c="@ + decimal_text(
            columns as nat,
        ) + ",r="@ + decimal_text(rows as nat) + ",q=2\u{1b}\\"@,
{
    let chars = chars_of(data);
    let mut out = String::new();
    let mut at: usize = 0;
    proof {
        assert(out@ + data_frames(id, chars@, 0) =~= data_frames(id, chars@, 0));
    }
    while at < chars.len()
        invariant
            chars@ == data@,
            out@ + data_frames(id, chars@, at as int) == data_frames(id, chars@, 0),
        decreases chars.len() - at,
    {
        let more = CHUNK < chars.len() - at;
        let end: usize = if more {
            at + CHUNK
        } else {
            chars.len()
        };
        let ghost before = out@;
        let head = if at == 0 {
            "\u{1b}_Ga=t,f=100,i=".to_owned().concat(decimal(id as u64).as_str()).concat(",q=2,m=").concat(
                flag_text(more),
            ).concat(";")
        } else {
            "\u{1b}_Gq=2,m=".to_owned().concat(flag_text(more)).concat(";")
        };
        let chunk = string_of(vstd::slice::slice_subrange(chars.as_slice(), at, end));
        out.append(head.as_str());
        out.append(chunk.as_str());
        out.append("\u{1b}\\");
        proof {
            let rest = data_frames(id, chars@, at + CHUNK);
            assert(out@ =~= before + (head@ + chunk@ + "\u{1b}\\"@));
            assert(before + (head@ + chunk@ + "\u{1b}\\"@) + rest =~= before + (head@ + chunk@ + "\u{1b}\\"@ + rest));
            if !more {
                assert(data_frames(id, chars@, end as int) =~= Seq::<char>::empty());
                assert(rest =~= Seq::<char>::empty());
            }
        }
        at = end;
    }
    proof {
        assert(out@ + Seq::<char>::empty() =~= out@);
    }
    out.concat("\u{1b}_Ga=p,U=1,i=").concat(decimal(id as u64).as_str()).concat(",c=").concat(
        decimal(columns as u64).as_str(),
    ).concat(",r=").concat(decimal(rows as u64).as_str()).concat(",q=2\u{1b}\\")
}

/// The graphics operations that wait for the terminal.
pub struct KittyGraphics {
    available: bool,
    operations: VecDeque<Operation>,
}

impl KittyGraphics {
    /// Whether the terminal draws images.
    pub closed spec fn is_available(&self) -> bool {
        self.available
    }

    /// The operations that wait.
    pub closed spec fn pending(&self) -> Seq<OperationView> {
        operation_views(self.operations@)
    }

    /// Nothing waits for a terminal without images, and what waits keeps the limits.
    pub open spec fn wf(&self) -> bool {
        &&& !self.is_available() ==> self.pending().len() == 0
        &&& self.pending().len() <= MAX_PENDING_OPERATIONS
        &&& pending_bytes(self.pending()) <= MAX_PENDING_PNG_BYTES
        &&& forall|i: int| 0 <= i < self.pending().len() ==> carried(#[trigger] self.pending()[i]) <= MAX_PNG_BYTES
    }

    pub fn new() -> (out: KittyGraphics)
        ensures
            out.wf(),
            !out.is_available(),
            out.pending() == Seq::<OperationView>::empty(),
    {
        let out = KittyGraphics { available: false, operations: VecDeque::new() };
        proof {
            assert(out.pending() =~= Seq::<OperationView>::empty());
        }
        out
    }

    /// Says whether the terminal draws images; if not, nothing waits any more.
    pub fn set_available(&mut self, available: bool)
        requires
            old(self).wf(),
        ensures
            final(self).wf(),
            final(self).is_available() == available,
            final(self).pending() == (if available {
                old(self).pending()
            } else {
                Seq::<OperationView>::empty()
            }),
    {
        self.available = available;
        if !available {
            self.operations.clear();
            proof {
                assert(self.pending() =~= Seq::<OperationView>::empty());
            }
        }
    }

    pub fn available(&self) -> (out: bool)
        ensures
            out == self.is_available(),
    {
        self.available
    }

    fn pending_png_bytes(&self) -> (out: usize)
        requires
            self.wf(),
        ensures
            out == pending_bytes(self.pending()),
    {
        let mut total: usize = 0;
        let mut i: usize = 0;
        let ghost all = self.pending();
        proof {
            assert(all.subrange(0, 0) =~= Seq::<OperationView>::empty());
        }
        while i < self.operations.len()
            invariant
                i <= self.operations@.len(),
                self.wf(),
                all == self.pending(),
                total == pending_bytes(all.subrange(0, i as int)),
                total <= i * MAX_PNG_BYTES,
                self.operations@.len() <= MAX_PENDING_OPERATIONS,
            decreases self.operations@.len() - i,
        {
            proof {
                assert(all[i as int] == self.operations@[i as int]@);
                assert(all.subrange(0, i + 1).drop_last() =~= all.subrange(0, i as int));
                assert(carried(all[i as int]) <= MAX_PNG_BYTES);
            }
            let carried: usize = match &self.operations[i] {
                Operation::Upload { png, .. } => png.len(),
                _ => 0,
            };
            total = total + carried;
            i += 1;
        }
        proof {
            assert(all.subrange(0, all.len() as int) =~= all);
        }
        total
    }

    /// Whether an upload is accepted.
    pub open spec fn accepts(&self, id: u32, png: Seq<u8>, columns: u16, rows: u16) -> bool {
        &&& self.is_available()
        &&& 0 < id <= MAX_IMAGE_ID
        &&& 0 < png.len() <= MAX_PNG_BYTES
        &&& columns > 0
        &&& rows > 0
        &&& self.pending().len() < MAX_PENDING_OPERATIONS
        &&& pending_bytes(self.pending()) + png.len() <= MAX_PENDING_PNG_BYTES
    }

    fn push(&mut self, operation: Operation)
        ensures
            final(self).is_available() == old(self).is_available(),
            final(self).pending() == old(self).pending().push(operation@),
            pending_bytes(final(self).pending()) == pending_bytes(old(self).pending()) + carried(operation@),
    {
        let ghost before = self.pending();
        let ghost view = operation@;
        self.operations.push_back(operation);
        proof {
            assert(self.pending() =~= before.push(view));
            assert(self.pending().drop_last() =~= before);
        }
    }

    /// Enqueues the upload and placement of an image.
    pub fn queue_upload(&mut self, id: u32, png: Vec<u8>, columns: u16, rows: u16) -> (out: bool)
        requires
            old(self).wf(),
        ensures
            final(self).wf(),
            out == old(self).accepts(id, png@, columns, rows),
            final(self).is_available() == old(self).is_available(),
            final(self).pending() == (if out {
                old(self).pending().push(OperationView::Upload { id, png: png@, columns, rows })
            } else {
                old(self).pending()
            }),
    {
        if !self.available || id == 0 || id > MAX_IMAGE_ID || png.len() == 0 || png.len() > MAX_PNG_BYTES || columns == 0
            || rows == 0 {
            return false;
        }
        let pending: usize = self.pending_png_bytes();
        if self.operations.len() >= MAX_PENDING_OPERATIONS || pending.saturating_add(png.len()) > MAX_PENDING_PNG_BYTES {
            return false;
        }
        self.push(Operation::Upload { id, png, columns, rows });
        true
    }

    /// Enqueues the deletion of an image.
    pub fn queue_delete(&mut self, id: u32)
        requires
            old(self).wf(),
        ensures
            final(self).wf(),
            final(self).is_available() == old(self).is_available(),
            final(self).pending() == (if old(self).is_available() && id != 0 && old(self).pending().len()
                < MAX_PENDING_OPERATIONS {
                old(self).pending().push(OperationView::Delete(id))
            } else {
                old(self).pending()
            }),
    {
        if self.available && id != 0 {
            if self.operations.len() < MAX_PENDING_OPERATIONS {
                self.push(Operation::Delete(id));
            }
        }
    }

    /// Enqueues the deletion of all images, in place of all that waits.
    pub fn queue_delete_all(&mut self)
        requires
            old(self).wf(),
        ensures
            final(self).wf(),
            final(self).is_available() == old(self).is_available(),
            final(self).pending() == (if old(self).is_available() {
                seq![OperationView::DeleteAll]
            } else {
                old(self).pending()
            }),
    {
        if self.available {
            self.operations.clear();
            proof {
                assert(self.pending() =~= Seq::<OperationView>::empty());
            }
            self.push(Operation::DeleteAll);
            proof {
                assert(self.pending() =~= seq![OperationView::DeleteAll]);
            }
        }
    }

    /// Takes all that waits and returns what the terminal is sent for it.
    pub fn drain(&mut self) -> (out: String)
        requires
            old(self).wf(),
        ensures
            final(self).wf(),
            final(self).is_available() == old(self).is_available(),
            final(self).pending() == Seq::<OperationView>::empty(),
            out@ == protocol_of(old(self).pending()),
    {
        let mut out = String::new();
        let mut i: usize = 0;
        let ghost all = self.pending();
        proof {
            assert(all.subrange(0, 0) =~= Seq::<OperationView>::empty());
            assert(out@ =~= protocol_of(all.subrange(0, 0)));
        }
        while i < self.operations.len()
            invariant
                i <= self.operations@.len(),
                *self == *old(self),
                self.wf(),
                all == self.pending(),
                out@ == protocol_of(all.subrange(0, i as int)),
            decreases self.operations@.len() - i,
        {
            proof {
                assert(all[i as int] == self.operations@[i as int]@);
                assert(carried(all[i as int]) <= MAX_PNG_BYTES);
                assert(all.subrange(0, i + 1).drop_last() =~= all.subrange(0, i as int));
            }
            let text = match &self.operations[i] {
                Operation::Upload { id, png, columns, rows } => {
                    let encoded = encode_base64(png);
                    write_upload(*id, encoded.as_str(), *columns, *rows)
                },
                Operation::Delete(id) => "\u{1b}_Ga=d,d=I,i=".to_owned().concat(decimal(*id as u64).as_str()).concat(
                    ",q=2\u{1b}\\",
                ),
                Operation::DeleteAll => "\u{1b}_Ga=d,d=A,q=2\u{1b}\\".to_owned(),
            };
            out.append(text.as_str());
            i += 1;
        }
        self.operations.clear();
        proof {
            assert(all.subrange(0, all.len() as int) =~= all);
            assert(self.pending() =~= Seq::<OperationView>::empty());
        }
        out
    }
}

/// A terminal that draws no images is sent nothing.
pub proof fn law_unsupported_backends_get_nothing(queue: KittyGraphics)
    requires
        queue.wf(),
        !queue.is_available(),
    ensures
        protocol_of(queue.pending()) == Seq::<char>::empty(),
{
}

} // verus!
