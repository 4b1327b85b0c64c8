//! Canonical regular-file snapshots shared by the read-only file interfaces.

use vstd::prelude::*;

use crate::text::{self, contains_text, decimal, starts_with};

verus! {

/// When a file was last modified, relative to the epoch.
#[derive(Clone, Copy, Debug, PartialEq, Eq, Structural)]
pub struct ModifiedTime {
    pub before_epoch: bool,
    pub seconds: u64,
    pub nanoseconds: u32,
}

/// What identifies one state of a file on disk.
#[derive(Clone, Copy, Debug, PartialEq, Eq, Structural)]
pub struct FileFingerprint {
    pub len: u64,
    pub modified: Option<ModifiedTime>,
    pub device: u64,
    pub inode: u64,
    pub change_seconds: i64,
    pub change_nanoseconds: i64,
}

/// A number in decimal notation, with zeros before it up to the given width.
pub open spec fn padded_text(n: nat, width: nat) -> Seq<char> {
    let digits = text::decimal_text(n);
    if digits.len() >= width {
        digits
    } else {
        Seq::new((width - digits.len()) as nat, |i: int| '0') + digits
    }
}

fn padded(n: u64, width: usize) -> (out: String)
    ensures
        out@ == padded_text(n as nat, width as nat),
{
    let digits = decimal(n);
    let length: usize = text::chars_of(digits.as_str()).len();
    let mut out = String::new();
    let mut i: usize = length;
    proof {
        assert(out@ =~= Seq::new(0, |i: int| '0'));
    }
    while i < width
        invariant
            length <= i,
            i <= width || i == length,
            out@ == Seq::new((i - length) as nat, |i: int| '0'),
        decreases width - i,
    {
        out.push('0');
        i += 1;
        proof {
            assert(out@ =~= Seq::new((i - length) as nat, |i: int| '0'));
        }
    }
    out.append(digits.as_str());
    proof {
        if length >= width {
            assert(out@ =~= digits@);
        }
    }
    out
}

/// A signed number in decimal notation.
pub open spec fn signed_text(n: int) -> Seq<char> {
    if n < 0 {
        seq!['-'] + text::decimal_text((-n) as nat)
    } else {
        text::decimal_text(n as nat)
    }
}

/// The distance of a number from zero.
pub open spec fn magnitude(n: int) -> nat {
    if n < 0 {
        (-n) as nat
    } else {
        n as nat
    }
}

fn unsigned_abs(n: i64) -> (out: u64)
    ensures
        out == magnitude(n as int),
{
    if n < 0 {
        (-(n + 1)) as u64 + 1
    } else {
        n as u64
    }
}

fn signed_decimal(n: i64) -> (out: String)
    ensures
        out@ == signed_text(n as int),
{
    let digits = decimal(unsigned_abs(n));
    if n < 0 {
        let mut out = String::new();
        out.push('-');
        out.append(digits.as_str());
        proof {
            assert(out@ =~= seq!['-'] + digits@);
        }
        out
    } else {
        digits
    }
}

impl FileFingerprint {
    /// The seconds and nanoseconds of the modification, zero where they are unknown.
    pub open spec fn modified_parts(self) -> (nat, nat) {
        match self.modified {
            Some(time) => if time.before_epoch {
                (0, 0)
            } else {
                (time.seconds as nat, time.nanoseconds as nat)
            },
            None => (0, 0),
        }
    }

    pub open spec fn identity_text(self) -> Seq<char> {
        text::decimal_text(self.modified_parts().0) + ":"@ + padded_text(self.modified_parts().1, 9) + ":"@
            + text::decimal_text(self.device as nat) + ":"@ + text::decimal_text(self.inode as nat) + ":"@ + signed_text(
            self.change_seconds as int,
        ) + ":"@ + padded_text(magnitude(self.change_nanoseconds as int), 9)
    }

    /// The times and numbers that identify this state of the file, as text.
    pub fn identity(&self) -> (out: String)
        ensures
            out@ == self.identity_text(),
    {
        let (seconds, nanoseconds): (u64, u32) = match self.modified {
            Some(time) => if time.before_epoch {
                (0, 0)
            } else {
                (time.seconds, time.nanoseconds)
            },
            None => (0, 0),
        };
        decimal(seconds).concat(":").concat(padded(nanoseconds as u64, 9).as_str()).concat(":").concat(
            decimal(self.device).as_str(),
        ).concat(":").concat(decimal(self.inode).as_str()).concat(":").concat(
            signed_decimal(self.change_seconds).as_str(),
        ).concat(":").concat(padded(unsigned_abs(self.change_nanoseconds), 9).as_str())
    }
}

/// Whether a character has the Unicode property White_Space.
pub open spec fn whitespace(c: char) -> bool {
    ||| 0x9 <= c as u32 <= 0xd
    ||| c as u32 == 0x20
    ||| c as u32 == 0x85
    ||| c as u32 == 0xa0
    ||| c as u32 == 0x1680
    ||| 0x2000 <= c as u32 <= 0x200a
    ||| c as u32 == 0x2028
    ||| c as u32 == 0x2029
    ||| c as u32 == 0x202f
    ||| c as u32 == 0x205f
    ||| c as u32 == 0x3000
}

/// Whether a character has the Unicode property White_Space.
pub fn is_whitespace(c: char) -> (out: bool)
    ensures
        out == whitespace(c),
{
    let code: u32 = c as u32;
    (0x9 <= code && code <= 0xd) || code == 0x20 || code == 0x85 || code == 0xa0 || code == 0x1680 || (0x2000 <= code && code
        <= 0x200a) || code == 0x2028 || code == 0x2029 || code == 0x202f || code == 0x205f || code == 0x3000
}

/// Whether a text has no character but white space.
pub open spec fn blank(text: Seq<char>) -> bool {
    forall|i: int| 0 <= i < text.len() ==> whitespace(#[trigger] text[i])
}

/// Whether a text has no character but white space.
pub fn is_blank(text: &str) -> (out: bool)
    ensures
        out == blank(text@),
{
    let chars = text::chars_of(text);
    let mut i: usize = 0;
    while i < chars.len()
        invariant
            chars@ == text@,
            i <= chars.len(),
            forall|k: int| 0 <= k < i ==> whitespace(#[trigger] chars@[k]),
        decreases chars.len() - i,
    {
        if !is_whitespace(chars[i]) {
            return false;
        }
        i += 1;
    }
    true
}

/// Whether a path may name a local file.
pub open spec fn local_path(path: Seq<char>) -> bool {
    !blank(path) && !text::occurs_in(path, "://"@) && !text::starts_text(path, "file:"@)
}

/// Refuses a path that cannot name a local file.
pub fn check_local_path(path: &str, file_owner: &str) -> (out: Result<(), String>)
    ensures
        local_path(path@) ==> out is Ok,
        !local_path(path@) ==> out is Err && out->Err_0@ == file_owner@ + " path must be a non-empty local path"@,
{
    if is_blank(path) || contains_text(path, "://") || starts_with(path, "file:") {
        return Err(file_owner.to_owned().concat(" path must be a non-empty local path"));
    }
    Ok(())
}

/// What was learned of a file as it was opened.
#[derive(Clone, Copy, Debug, PartialEq, Eq, Structural)]
pub struct OpenedFile {
    pub is_regular: bool,
    /// The fingerprint of the open file.
    pub opened: FileFingerprint,
    /// The fingerprint of what its path names.
    pub current: FileFingerprint,
}

/// Why an opened file is refused, if it is.
pub open spec fn opening_error(file: OpenedFile, file_owner: Seq<char>, viewer_owner: Seq<char>) -> Option<Seq<char>> {
    if !file.is_regular {
        Some(viewer_owner + " accepts regular files only"@)
    } else if file.opened.len > usize::MAX {
        Some(file_owner + " is too large for this platform"@)
    } else if file.current != file.opened {
        Some(file_owner + " changed while it was being opened"@)
    } else {
        None
    }
}

/// The fingerprint of a file that was opened, if the file is accepted.
pub fn check_opened(file: &OpenedFile, file_owner: &str, viewer_owner: &str) -> (out: Result<FileFingerprint, String>)
    ensures
        match opening_error(*file, file_owner@, viewer_owner@) {
            Some(text) => out is Err && out->Err_0@ == text,
            None => out == Ok::<FileFingerprint, String>(file.opened),
        },
{
    if !file.is_regular {
        return Err(viewer_owner.to_owned().concat(" accepts regular files only"));
    }
    if file.opened.len > usize::MAX as u64 {
        return Err(file_owner.to_owned().concat(" is too large for this platform"));
    }
    if file.current != file.opened {
        return Err(file_owner.to_owned().concat(" changed while it was being opened"));
    }
    Ok(file.opened)
}

/// The fingerprints of an open file and of what its path names now; `None`
/// where they cannot be had.
#[derive(Clone, Copy, Debug, PartialEq, Eq, Structural)]
pub struct Observation {
    pub opened: Option<FileFingerprint>,
    pub current: Option<FileFingerprint>,
}

/// Whether a snapshot no longer is what the file and its path show.
pub open spec fn stale(fingerprint: FileFingerprint, seen: Observation, closed: bool) -> bool {
    closed || seen.opened != Some(fingerprint) || seen.current != Some(fingerprint)
}

/// Whether a snapshot no longer is what the file and its path show.
pub fn snapshot_stale(fingerprint: &FileFingerprint, seen: &Observation, closed: bool) -> (out: bool)
    ensures
        out == stale(*fingerprint, *seen, closed),
{
    if closed {
        return true;
    }
    match (seen.opened, seen.current) {
        (Some(opened), Some(current)) => opened != *fingerprint || current != *fingerprint,
        _ => true,
    }
}

/// Refuses a snapshot that is closed or stale.
pub fn ensure_snapshot_fresh(
    fingerprint: &FileFingerprint,
    seen: &Observation,
    closed: bool,
    owner: &str,
    refresh_action: &str,
) -> (out: Result<(), String>)
    ensures
        out is Ok <==> !stale(*fingerprint, *seen, closed),
        closed ==> out is Err && out->Err_0@ == owner@ + " handle is closed"@,
        !closed && stale(*fingerprint, *seen, closed) ==> out is Err && out->Err_0@ == owner@
            + " file changed on disk; "@ + refresh_action@,
{
    if closed {
        return Err(owner.to_owned().concat(" handle is closed"));
    }
    if snapshot_stale(fingerprint, seen, false) {
        return Err(owner.to_owned().concat(" file changed on disk; ").concat(refresh_action));
    }
    Ok(())
}

} // verus!
