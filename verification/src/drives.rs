//! Disk drives, disk images, and mount modes.

use crate::UltimateError;
use vstd::prelude::*;

verus! {

/// Disk drive types of the supported device family.
#[derive(Debug, Clone, Copy, PartialEq, Eq, PartialOrd, Ord, Structural)]
pub enum DriveType {
    CBM1541,
    CBM1571,
    CBM1581,
    DOS,
}

impl DriveType {
    /// The drive type's display name.
    pub open spec fn spec_str(&self) -> Seq<char> {
        match self {
            DriveType::CBM1541 => "1541"@,
            DriveType::CBM1571 => "1571"@,
            DriveType::CBM1581 => "1581"@,
            DriveType::DOS => "DOS emulation"@,
        }
    }

    /// The drive type's display name.
    pub fn as_str(&self) -> (r: &'static str)
        ensures
            r@ == self.spec_str(),
    {
        match self {
            DriveType::CBM1541 => "1541",
            DriveType::CBM1571 => "1571",
            DriveType::CBM1581 => "1581",
            DriveType::DOS => "DOS emulation",
        }
    }
}

/// Disk image types, distinguished by file extension.
#[derive(Debug, Clone, Copy, PartialEq, Eq, PartialOrd, Ord, Structural)]
pub enum DiskImageType {
    D64,
    G64,
    D71,
    G71,
    D81,
}

/// The code point of `c`, with ASCII upper-case letters folded to their
/// lower-case counterparts.
pub open spec fn lower_code(c: char) -> int {
    if 65 <= c as int <= 90 {
        c as int + 32
    } else {
        c as int
    }
}

/// Case-insensitive (ASCII) equality of two character sequences.
pub open spec fn matches_ci(a: Seq<char>, b: Seq<char>) -> bool {
    a.len() == b.len() && forall|i: int|
        0 <= i < a.len() ==> #[trigger] lower_code(a[i]) == lower_code(b[i])
}

/// The position of the last `'.'` in `s`, if any.
pub open spec fn spec_last_dot(s: Seq<char>) -> Option<int>
    decreases s.len(),
{
    let n = s.len() as int;
    if n == 0 {
        None
    } else if s[n - 1] == '.' {
        Some(n - 1)
    } else {
        spec_last_dot(s.drop_last())
    }
}

/// The extension of a file name: the part after the last `'.'`, provided
/// that dot is neither absent nor the leading character (a name starting
/// with its only dot is a hidden file, not a name with an extension).
pub open spec fn spec_extension(s: Seq<char>) -> Option<Seq<char>> {
    match spec_last_dot(s) {
        None => None,
        Some(i) => if i > 0 {
            Some(s.skip(i + 1))
        } else {
            None
        },
    }
}

/// The disk image type a file extension denotes, compared without regard
/// to ASCII case.
pub open spec fn spec_image_type(ext: Seq<char>) -> Option<DiskImageType> {
    if matches_ci(ext, seq!['d', '6', '4']) {
        Some(DiskImageType::D64)
    } else if matches_ci(ext, seq!['d', '7', '1']) {
        Some(DiskImageType::D71)
    } else if matches_ci(ext, seq!['d', '8', '1']) {
        Some(DiskImageType::D81)
    } else if matches_ci(ext, seq!['g', '6', '4']) {
        Some(DiskImageType::G64)
    } else if matches_ci(ext, seq!['g', '7', '1']) {
        Some(DiskImageType::G71)
    } else {
        None
    }
}

/// The disk image type a file name denotes through its extension.
pub open spec fn spec_from_file_name(s: Seq<char>) -> Option<DiskImageType> {
    match spec_extension(s) {
        None => None,
        Some(e) => spec_image_type(e),
    }
}

/// Fold one character to lower case, ASCII-wise, as a code point.
fn lower_char(c: char) -> (r: u32)
    ensures
        r as int == lower_code(c),
{
    let v = c as u32;
    if 65 <= v && v <= 90 {
        v + 32
    } else {
        v
    }
}

/// A sequence with no dot has no last dot.
proof fn lemma_no_dot(s: Seq<char>)
    requires
        forall|j: int| 0 <= j < s.len() ==> s[j] != '.',
    ensures
        spec_last_dot(s) is None,
    decreases s.len(),
{
    if s.len() > 0 {
        assert(forall|j: int| 0 <= j < s.drop_last().len() ==> s.drop_last()[j] == s[j]);
        lemma_no_dot(s.drop_last());
    }
}

/// A dot at `k` with no dot after it is the last dot.
proof fn lemma_last_dot_at(s: Seq<char>, k: int)
    requires
        0 <= k < s.len(),
        s[k] == '.',
        forall|j: int| k < j < s.len() ==> s[j] != '.',
    ensures
        spec_last_dot(s) == Some(k),
    decreases s.len(),
{
    let n = s.len() as int;
    if k < n - 1 {
        assert(s[n - 1] != '.');
        assert(forall|j: int| 0 <= j < s.drop_last().len() ==> s.drop_last()[j] == s[j]);
        lemma_last_dot_at(s.drop_last(), k);
    }
}

/// Does the suffix of `name` starting at `start` match the three characters
/// `c0 c1 c2`, without regard to ASCII case?
fn suffix_matches(name: &str, start: usize, c0: char, c1: char, c2: char) -> (b: bool)
    requires
        start <= name@.len(),
    ensures
        b == matches_ci(name@.skip(start as int), seq![c0, c1, c2]),
{
    let n = name.unicode_len();
    if n - start != 3 {
        assert(name@.skip(start as int).len() != 3);
        return false;
    }
    let ghost pat = seq![c0, c1, c2];
    let m0 = lower_char(name.get_char(start)) == lower_char(c0);
    let m1 = lower_char(name.get_char(start + 1)) == lower_char(c1);
    let m2 = lower_char(name.get_char(start + 2)) == lower_char(c2);
    proof {
        let ext = name@.skip(start as int);
        assert(ext.len() == 3);
        if m0 && m1 && m2 {
            assert forall|i: int| 0 <= i < 3 implies #[trigger] lower_code(ext[i]) == lower_code(
                pat[i],
            ) by {
                if i == 0 {
                    assert(ext[0] == name@[start as int] && pat[0] == c0);
                } else if i == 1 {
                    assert(ext[1] == name@[start as int + 1] && pat[1] == c1);
                } else {
                    assert(ext[2] == name@[start as int + 2] && pat[2] == c2);
                }
            }
        } else {
            if !m0 {
                assert(lower_code(ext[0]) != lower_code(pat[0]));
            } else if !m1 {
                assert(lower_code(ext[1]) != lower_code(pat[1]));
            } else {
                assert(lower_code(ext[2]) != lower_code(pat[2]));
            }
        }
    }
    m0 && m1 && m2
}

impl DiskImageType {
    /// The image type's display name, which is also its file extension.
    pub open spec fn spec_str(&self) -> Seq<char> {
        match self {
            DiskImageType::D64 => "d64"@,
            DiskImageType::G64 => "g64"@,
            DiskImageType::D71 => "d71"@,
            DiskImageType::G71 => "g71"@,
            DiskImageType::D81 => "d81"@,
        }
    }

    /// The image type's display name, which is also its file extension.
    pub fn as_str(&self) -> (r: &'static str)
        ensures
            r@ == self.spec_str(),
    {
        match self {
            DiskImageType::D64 => "d64",
            DiskImageType::G64 => "g64",
            DiskImageType::D71 => "d71",
            DiskImageType::G71 => "g71",
            DiskImageType::D81 => "d81",
        }
    }

    /// The disk image type named by a file name's extension, compared
    /// without regard to ASCII case. Fails exactly when the name has no
    /// extension or the extension is not a recognised one.
    pub fn from_file_name(file_name: &str) -> (r: Result<DiskImageType, UltimateError>)
        ensures
            r is Ok <==> spec_from_file_name(file_name@) is Some,
            r is Ok ==> Some(r->Ok_0) == spec_from_file_name(file_name@),
            r is Err ==> r->Err_0 == UltimateError::UnknownDiskImageExtension,
    {
        let n = file_name.unicode_len();
        // Position just after the last dot seen so far; 0 while none is seen.
        let mut after_dot: usize = 0;
        let mut j: usize = 0;
        while j < n
            invariant
                n == file_name@.len(),
                j <= n,
                after_dot <= j,
                after_dot > 0 ==> file_name@[after_dot - 1] == '.',
                forall|k: int| after_dot <= k < j ==> file_name@[k] != '.',
            decreases n - j,
        {
            if file_name.get_char(j) == '.' {
                after_dot = j + 1;
            }
            j += 1;
        }
        proof {
            if after_dot == 0 {
                lemma_no_dot(file_name@);
            } else {
                lemma_last_dot_at(file_name@, after_dot - 1);
            }
        }
        if after_dot < 2 {
            // No dot at all, or only a leading dot: no extension.
            return Err(UltimateError::UnknownDiskImageExtension);
        }
        if suffix_matches(file_name, after_dot, 'd', '6', '4') {
            Ok(DiskImageType::D64)
        } else if suffix_matches(file_name, after_dot, 'd', '7', '1') {
            Ok(DiskImageType::D71)
        } else if suffix_matches(file_name, after_dot, 'd', '8', '1') {
            Ok(DiskImageType::D81)
        } else if suffix_matches(file_name, after_dot, 'g', '6', '4') {
            Ok(DiskImageType::G64)
        } else if suffix_matches(file_name, after_dot, 'g', '7', '1') {
            Ok(DiskImageType::G71)
        } else {
            Err(UltimateError::UnknownDiskImageExtension)
        }
    }
}

/// Drive mount modes.
#[derive(Debug, Clone, Copy, PartialEq, Eq, PartialOrd, Ord, Structural)]
pub enum MountMode {
    /// Read and write access.
    ReadWrite,
    /// Read only access.
    ReadOnly,
    /// Unlinked.
    Unlinked,
}

/// Character-wise equality of two string slices.
fn str_eq(a: &str, b: &str) -> (r: bool)
    ensures
        r == (a@ == b@),
{
    let na = a.unicode_len();
    let nb = b.unicode_len();
    if na != nb {
        return false;
    }
    let mut i: usize = 0;
    while i < na
        invariant
            na == a@.len(),
            na == b@.len(),
            i <= na,
            forall|j: int| 0 <= j < i ==> a@[j] == b@[j],
        decreases na - i,
    {
        if a.get_char(i) != b.get_char(i) {
            return false;
        }
        i += 1;
    }
    proof {
        assert(a@ =~= b@);
    }
    true
}

impl MountMode {
    /// The mount mode's full name.
    pub open spec fn spec_str(&self) -> Seq<char> {
        match self {
            MountMode::ReadWrite => "readwrite"@,
            MountMode::ReadOnly => "readonly"@,
            MountMode::Unlinked => "unlinked"@,
        }
    }

    /// The mount mode's full name.
    pub fn as_str(&self) -> (r: &'static str)
        ensures
            r@ == self.spec_str(),
    {
        match self {
            MountMode::ReadWrite => "readwrite",
            MountMode::ReadOnly => "readonly",
            MountMode::Unlinked => "unlinked",
        }
    }

    /// The mount mode a full name denotes, if any.
    pub open spec fn spec_of_name(s: Seq<char>) -> Option<MountMode> {
        if s == "readwrite"@ {
            Some(MountMode::ReadWrite)
        } else if s == "readonly"@ {
            Some(MountMode::ReadOnly)
        } else if s == "unlinked"@ {
            Some(MountMode::Unlinked)
        } else {
            None
        }
    }

    /// Parse a mount mode from its full name. Fails exactly on any other
    /// string.
    pub fn try_from(s: &str) -> (r: Result<MountMode, UltimateError>)
        ensures
            r is Ok <==> Self::spec_of_name(s@) is Some,
            r is Ok ==> Some(r->Ok_0) == Self::spec_of_name(s@),
            r is Err ==> r->Err_0 == UltimateError::UnknownMountMode,
    {
        if str_eq(s, "readwrite") {
            Ok(MountMode::ReadWrite)
        } else if str_eq(s, "readonly") {
            Ok(MountMode::ReadOnly)
        } else if str_eq(s, "unlinked") {
            Ok(MountMode::Unlinked)
        } else {
            Err(UltimateError::UnknownMountMode)
        }
    }
}

/// Description of one drive, as the device reports it.
#[derive(Debug, Clone, PartialEq, Eq)]
pub struct Drive {
    /// Bus ID.
    pub bus_id: u8,
    /// Enabled.
    pub enabled: bool,
    /// Type.
    pub drive_type: Option<DriveType>,
    /// Last error.
    pub last_error: Option<String>,
    /// ROM.
    pub rom: Option<String>,
    /// Image file.
    pub image_file: Option<String>,
    /// Image path.
    pub image_path: Option<String>,
}

/// The raw drive list as the device reports it: groups of named drives.
#[derive(Debug, PartialEq, Eq)]
pub struct DriveList {
    /// List of drives, one group of `(name, drive)` entries per report row.
    pub drives: Vec<Vec<(String, Drive)>>,
}

/// The entries of a drive list's groups, flattened in report order.
pub open spec fn spec_drive_entries(groups: Seq<Vec<(String, Drive)>>) -> Seq<(String, Drive)> {
    groups.map_values(|g: Vec<(String, Drive)>| g@).flatten()
}

impl DriveList {
    /// Flatten the report's groups into one list of `(name, drive)`
    /// entries, keeping report order.
    pub fn flatten(self) -> (r: Vec<(String, Drive)>)
        ensures
            r@ == spec_drive_entries(self.drives@),
    {
        let ghost all = self.drives@;
        let mut groups = self.drives;
        let mut r: Vec<(String, Drive)> = Vec::new();
        while groups.len() > 0
            invariant
                r@ + spec_drive_entries(groups@) == spec_drive_entries(all),
            decreases groups@.len(),
        {
            let ghost groups0 = groups@;
            let mut g = groups.remove(0);
            proof {
                assert(groups0.map_values(|g: Vec<(String, Drive)>| g@).drop_first()
                    =~= groups@.map_values(|g: Vec<(String, Drive)>| g@));
                assert(spec_drive_entries(groups0) == g@ + spec_drive_entries(groups@));
            }
            while g.len() > 0
                invariant
                    r@ + g@ + spec_drive_entries(groups@) == spec_drive_entries(all),
                decreases g@.len(),
            {
                let ghost r0 = r@;
                let ghost g0 = g@;
                let e = g.remove(0);
                r.push(e);
                proof {
                    assert(r@ + g@ =~= r0 + g0);
                    assert((r@ + g@) + spec_drive_entries(groups@) =~= (r0 + g0)
                        + spec_drive_entries(groups@));
                }
            }
            proof {
                assert(r@ + g@ =~= r@);
                assert(r@ + spec_drive_entries(groups@) =~= (r@ + g@) + spec_drive_entries(
                    groups@,
                ));
            }
        }
        proof {
            assert(spec_drive_entries(groups@) =~= Seq::<(String, Drive)>::empty());
            assert(r@ =~= r@ + spec_drive_entries(groups@));
        }
        r
    }
}

} // verus!
