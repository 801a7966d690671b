//! Storage volumes: the list of drive strings that the platform hands back,
//! the category behind each type code, and the capacity figures of a volume.

use vstd::prelude::*;
use vstd::utf8::{decode_utf8, valid_utf8};

verus! {

/// The platform's type code of a volume that can be taken out.
pub const DRIVE_REMOVABLE: u32 = 2;

/// The platform's type code of a hard disk.
pub const DRIVE_FIXED: u32 = 3;

/// The platform's type code of a network share.
pub const DRIVE_REMOTE: u32 = 4;

/// The platform's type code of an optical drive.
pub const DRIVE_CDROM: u32 = 5;

/// The category of a volume.
#[derive(Clone, Copy, Debug, PartialEq, Eq, Structural)]
pub enum DriveKind {
    Removable,
    Fixed,
    Network,
    Optical,
    Unknown,
}

/// The category that a type code stands for.
pub open spec fn kind_of_code(code: u32) -> DriveKind {
    if code == DRIVE_REMOVABLE {
        DriveKind::Removable
    } else if code == DRIVE_FIXED {
        DriveKind::Fixed
    } else if code == DRIVE_REMOTE {
        DriveKind::Network
    } else if code == DRIVE_CDROM {
        DriveKind::Optical
    } else {
        DriveKind::Unknown
    }
}

/// The constant `DRIVE_REMOVABLE` of the `windows` crate, which that crate
/// declares as 2.
#[verifier::external_body]
fn platform_removable() -> (code: u32)
    ensures
        code == DRIVE_REMOVABLE,
{
    windows::Win32::System::WindowsProgramming::DRIVE_REMOVABLE
}

/// The constant `DRIVE_FIXED` of the `windows` crate, which that crate
/// declares as 3.
#[verifier::external_body]
fn platform_fixed() -> (code: u32)
    ensures
        code == DRIVE_FIXED,
{
    windows::Win32::System::WindowsProgramming::DRIVE_FIXED
}

/// The constant `DRIVE_REMOTE` of the `windows` crate, which that crate
/// declares as 4.
#[verifier::external_body]
fn platform_remote() -> (code: u32)
    ensures
        code == DRIVE_REMOTE,
{
    windows::Win32::System::WindowsProgramming::DRIVE_REMOTE
}

/// The constant `DRIVE_CDROM` of the `windows` crate, which that crate
/// declares as 5.
#[verifier::external_body]
fn platform_cdrom() -> (code: u32)
    ensures
        code == DRIVE_CDROM,
{
    windows::Win32::System::WindowsProgramming::DRIVE_CDROM
}

impl DriveKind {
    /// Maps a platform type code to its category; a code that is not known
    /// gives `Unknown`.
    pub fn from_code(code: u32) -> (kind: DriveKind)
        ensures
            kind == kind_of_code(code),
    {
        if code == platform_removable() {
            DriveKind::Removable
        } else if code == platform_fixed() {
            DriveKind::Fixed
        } else if code == platform_remote() {
            DriveKind::Network
        } else if code == platform_cdrom() {
            DriveKind::Optical
        } else {
            DriveKind::Unknown
        }
    }

    /// The category in words, as a summary line shows it.
    pub fn label(&self) -> (text: &'static str)
        ensures
            text@ == kind_label(*self),
    {
        match self {
            DriveKind::Removable => "Removable",
            DriveKind::Fixed => "Hard disk",
            DriveKind::Network => "Network",
            DriveKind::Optical => "CD/DVD",
            DriveKind::Unknown => "Unknown",
        }
    }
}

/// The words for a category.
pub open spec fn kind_label(kind: DriveKind) -> Seq<char> {
    match kind {
        DriveKind::Removable => "Removable"@,
        DriveKind::Fixed => "Hard disk"@,
        DriveKind::Network => "Network"@,
        DriveKind::Optical => "CD/DVD"@,
        DriveKind::Unknown => "Unknown"@,
    }
}

/// The platform could not say which volumes there are.
#[derive(Clone, Copy, Debug, PartialEq, Eq, Structural)]
pub struct EnumerationError;

/// The strings of a list in which each string ends with a zero byte and an
/// empty string ends the list, read from position `from` on, with `current`
/// holding the bytes of the string that is being read. The end of the buffer
/// ends a string, and the list, as a zero byte would.
pub open spec fn strings_from(buffer: Seq<u8>, from: int, current: Seq<u8>) -> Seq<Seq<u8>>
    decreases buffer.len() - from,
{
    if from < 0 || from >= buffer.len() {
        if current.len() > 0 {
            seq![current]
        } else {
            Seq::empty()
        }
    } else if buffer[from] != 0 {
        strings_from(buffer, from + 1, current.push(buffer[from]))
    } else if current.len() == 0 {
        Seq::empty()
    } else {
        seq![current] + strings_from(buffer, from + 1, Seq::empty())
    }
}

/// The drive strings that a buffer holds.
pub open spec fn strings_of(buffer: Seq<u8>) -> Seq<Seq<u8>> {
    strings_from(buffer, 0, Seq::empty())
}

/// The byte strings held by a vector.
pub open spec fn bytes_of(strings: Seq<Vec<u8>>) -> Seq<Seq<u8>> {
    strings.map_values(|s: Vec<u8>| s@)
}

/// Splits the platform's answer to the question for all drive strings.
/// `written` is the length that the platform reported. Zero means that the
/// question failed, and a length beyond the buffer that the buffer was too
/// small and holds nothing. The strings come back in the order of the buffer,
/// each without its closing zero byte.
pub fn drive_strings(written: u32, buffer: &Vec<u8>) -> (result: Result<
    Vec<Vec<u8>>,
    EnumerationError,
>)
    ensures
        written == 0 || written > buffer@.len() <==> result is Err,
        result is Ok ==> bytes_of(result->Ok_0@) == strings_of(buffer@),
        result is Ok ==> forall|k: int|
            0 <= k < result->Ok_0@.len() ==> (#[trigger] result->Ok_0@[k])@.len() > 0
                && !result->Ok_0@[k]@.contains(0u8),
{
    if written == 0 || written as usize > buffer.len() {
        return Err(EnumerationError);
    }
    let mut strings: Vec<Vec<u8>> = Vec::new();
    let mut current: Vec<u8> = Vec::new();
    let mut i: usize = 0;
    let mut ended: bool = false;
    proof {
        assert(bytes_of(strings@) + strings_from(buffer@, 0, current@) =~= strings_of(buffer@));
    }
    while i < buffer.len() && !ended
        invariant
            i <= buffer.len(),
            !ended ==> strings_of(buffer@) == bytes_of(strings@) + strings_from(
                buffer@,
                i as int,
                current@,
            ),
            ended ==> strings_of(buffer@) == bytes_of(strings@),
            !current@.contains(0u8),
            forall|k: int|
                0 <= k < strings@.len() ==> (#[trigger] strings@[k])@.len() > 0
                    && !strings@[k]@.contains(0u8),
        decreases buffer.len() - i + (if ended { 0int } else { 1int }),
    {
        let byte: u8 = buffer[i];
        let ghost before = bytes_of(strings@);
        if byte != 0 {
            let ghost read = current@;
            current.push(byte);
            proof {
                assert forall|j: int| 0 <= j < current@.len() implies current@[j] != 0u8 by {
                    if j < read.len() {
                        assert(read.contains(read[j]));
                    }
                }
            }
            i += 1;
        } else if current.len() == 0 {
            proof {
                assert(before + Seq::empty() =~= before);
            }
            ended = true;
        } else {
            let ghost read = current@;
            strings.push(current);
            current = Vec::new();
            proof {
                assert(bytes_of(strings@) =~= before + seq![read]);
                assert(before + (seq![read] + strings_from(buffer@, i + 1, Seq::empty()))
                    =~= bytes_of(strings@) + strings_from(buffer@, i + 1, Seq::empty()));
            }
            i += 1;
        }
    }
    if !ended && current.len() > 0 {
        let ghost before = bytes_of(strings@);
        let ghost read = current@;
        strings.push(current);
        proof {
            assert(bytes_of(strings@) =~= before + seq![read]);
        }
    } else {
        proof {
            assert(bytes_of(strings@) + Seq::empty() =~= bytes_of(strings@));
        }
    }
    Ok(strings)
}

/// The capacity figures that the platform reported for a volume, in bytes.
pub struct DiskSpace {
    pub total: u64,
    pub free: u64,
}

/// What the platform said of one drive string.
pub struct DriveProbe {
    /// The drive string, without its closing zero byte.
    pub drive_string: Vec<u8>,
    /// The platform's type code of the volume.
    pub type_code: u32,
    /// The capacity figures, or `None` where the platform could not give them.
    pub space: Option<DiskSpace>,
}

/// A storage volume with its capacity, in bytes.
#[derive(Debug)]
pub struct Drive {
    pub name: String,
    pub letter: char,
    pub total_space: u64,
    pub used_space: u64,
    pub free_space: u64,
    pub kind: DriveKind,
}

/// A volume as plain values.
pub struct DriveView {
    pub name: Seq<char>,
    pub letter: char,
    pub total_space: u64,
    pub used_space: u64,
    pub free_space: u64,
    pub kind: DriveKind,
}

impl View for Drive {
    type V = DriveView;

    open spec fn view(&self) -> DriveView {
        DriveView {
            name: self.name@,
            letter: self.letter,
            total_space: self.total_space,
            used_space: self.used_space,
            free_space: self.free_space,
            kind: self.kind,
        }
    }
}

impl DriveView {
    /// The used and the free bytes make up the total.
    pub open spec fn balanced(self) -> bool {
        self.used_space + self.free_space == self.total_space
    }
}

/// Whether a probe describes a volume that can be listed: its name is text,
/// and the platform gave capacity figures in which the free bytes do not
/// exceed the total.
pub open spec fn listable(probe: DriveProbe) -> bool {
    &&& probe.drive_string@.len() > 0
    &&& valid_utf8(probe.drive_string@)
    &&& probe.space is Some
    &&& probe.space->0.free <= probe.space->0.total
}

/// The volume that a listable probe describes.
pub open spec fn drive_of(probe: DriveProbe) -> DriveView {
    DriveView {
        name: decode_utf8(probe.drive_string@),
        letter: probe.drive_string@[0] as char,
        total_space: probe.space->0.total,
        used_space: (probe.space->0.total - probe.space->0.free) as u64,
        free_space: probe.space->0.free,
        kind: kind_of_code(probe.type_code),
    }
}

/// The volumes described by the first `n` probes, in their order, those that
/// cannot be listed left out.
pub open spec fn drives_of(probes: Seq<DriveProbe>, n: nat) -> Seq<DriveView>
    decreases n,
{
    if n == 0 || n > probes.len() {
        Seq::empty()
    } else if listable(probes[n - 1]) {
        drives_of(probes, (n - 1) as nat).push(drive_of(probes[n - 1]))
    } else {
        drives_of(probes, (n - 1) as nat)
    }
}

/// The volumes held by a vector, as plain values.
pub open spec fn drive_views(drives: Seq<Drive>) -> Seq<DriveView> {
    drives.map_values(|d: Drive| d@)
}

/// Decodes a drive string as text, by `String::from_utf8` of the standard
/// library. The contract restates its documentation: it succeeds exactly on
/// well-formed UTF-8 and then holds the characters that the bytes encode.
#[verifier::external_body]
fn decode_name(bytes: &Vec<u8>) -> (name: Option<String>)
    ensures
        name is Some <==> valid_utf8(bytes@),
        name is Some ==> name->0@ == decode_utf8(bytes@),
{
    String::from_utf8(bytes.clone()).ok()
}

impl Drive {
    /// Builds the volume that a probe describes, or `None` where the probe
    /// cannot be listed.
    pub fn from_probe(probe: &DriveProbe) -> (drive: Option<Drive>)
        ensures
            drive is Some <==> listable(*probe),
            drive is Some ==> drive->0@ == drive_of(*probe) && drive->0@.balanced(),
    {
        if probe.drive_string.len() == 0 {
            return None;
        }
        let (total_space, free_space): (u64, u64) = match &probe.space {
            Some(space) => (space.total, space.free),
            None => {
                return None;
            },
        };
        if free_space > total_space {
            return None;
        }
        let name = match decode_name(&probe.drive_string) {
            Some(name) => name,
            None => {
                return None;
            },
        };
        Some(
            Drive {
                name,
                letter: probe.drive_string[0] as char,
                total_space,
                used_space: total_space - free_space,
                free_space,
                kind: DriveKind::from_code(probe.type_code),
            },
        )
    }
}

/// The bytes in one gibibyte.
pub const GIB: u64 = 1073741824;

/// A byte count in whole gibibytes, rounded down, as a summary line shows it.
pub fn gibibytes(bytes: u64) -> (whole: u64)
    ensures
        whole == bytes / GIB,
{
    bytes / GIB
}

/// Lists the volumes that the probes describe, in the order of the probes. A
/// volume whose capacity the platform could not give, or whose figures or
/// name make no sense, is left out; the others are not affected by it.
pub fn get_all_drives(probes: &Vec<DriveProbe>) -> (drives: Vec<Drive>)
    ensures
        drive_views(drives@) == drives_of(probes@, probes@.len()),
        drives@.len() == drives_of(probes@, probes@.len()).len(),
        forall|k: int| 0 <= k < drives@.len() ==> (#[trigger] drives@[k])@.balanced(),
{
    let mut drives: Vec<Drive> = Vec::new();
    let mut i: usize = 0;
    proof {
        assert(drive_views(drives@) =~= drives_of(probes@, 0));
    }
    while i < probes.len()
        invariant
            i <= probes.len(),
            drive_views(drives@) == drives_of(probes@, i as nat),
            drives@.len() == drives_of(probes@, i as nat).len(),
            forall|k: int| 0 <= k < drives@.len() ==> (#[trigger] drives@[k])@.balanced(),
        decreases probes.len() - i,
    {
        let ghost before = drive_views(drives@);
        match Drive::from_probe(&probes[i]) {
            Some(drive) => {
                drives.push(drive);
                proof {
                    assert(drive_views(drives@) =~= before.push(drive@));
                }
            },
            None => {},
        }
        i += 1;
    }
    drives
}

/// Of every volume listed, the used and the free bytes make up the total.
pub proof fn lemma_listed_drives_are_balanced(probes: Seq<DriveProbe>, n: nat)
    ensures
        forall|k: int|
            0 <= k < drives_of(probes, n).len() ==> (#[trigger] drives_of(probes, n)[k]).balanced(),
    decreases n,
{
    if n != 0 && n <= probes.len() {
        lemma_listed_drives_are_balanced(probes, (n - 1) as nat);
        let earlier = drives_of(probes, (n - 1) as nat);
        let listed = drives_of(probes, n);
        assert forall|k: int| 0 <= k < listed.len() implies (#[trigger] listed[k]).balanced() by {
            if k < earlier.len() {
                assert(listed[k] == earlier[k]);
            } else {
                assert(listed[k] == drive_of(probes[n - 1]));
            }
        }
    }
}

} // verus!
