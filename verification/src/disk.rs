//! Finding the volume that a path lies on.
//!
//! Of the mounted volumes whose mount point the path lies under, the one
//! with the longest mount point owns the path. Its capacity and kind are
//! reported; a path that no volume owns is reported as unknown, with a
//! capacity of zero, which callers read as "not known" and not as "empty".

use crate::text::signed_decimal;
use vstd::prelude::*;
use vstd::utf8::encode_utf8;

verus! {

/// The kind of medium behind a volume.
#[derive(Clone, Copy, Debug, PartialEq, Eq, Structural)]
pub enum DiskKind {
    Hdd,
    Ssd,
    Unknown(isize),
}

/// A mounted volume.
pub struct Volume {
    /// Where the volume is mounted, if that path is text. No path that is
    /// given as text lies under a mount point that is not.
    pub mount_point: Option<String>,
    pub total_space: u64,
    pub kind: DiskKind,
    /// The kind as the system information names it.
    pub kind_label: String,
}

/// What is known of the volume that a path lies on.
pub struct DiskInfo {
    /// The capacity in bytes; zero where no volume owns the path.
    pub total_space: u64,
    pub kind_label: String,
    /// Whether scanning side by side pays off: it does on solid-state media.
    pub prefer_parallel: bool,
}

/// The length of a volume's mount point in bytes, zero where the mount point
/// is not text.
pub open spec fn mount_len(volume: Volume) -> nat {
    match volume.mount_point {
        Some(mount_point) => encode_utf8(mount_point@).len(),
        None => 0,
    }
}

/// Whether the path lies under the mount point of volume `i`, going by the
/// answers in `under`. An answer that is missing counts as no.
pub open spec fn lies_under(volumes: Seq<Volume>, under: Seq<bool>, i: int) -> bool {
    0 <= i < volumes.len() && i < under.len() && under[i]
}

/// Volume `i` owns the path: the path lies under its mount point, which is
/// not empty, no other such mount point is longer, and of those that are as
/// long it is the first.
pub open spec fn owns(volumes: Seq<Volume>, under: Seq<bool>, i: int) -> bool {
    &&& lies_under(volumes, under, i)
    &&& mount_len(volumes[i]) > 0
    &&& forall|j: int| #[trigger]
        lies_under(volumes, under, j) ==> mount_len(volumes[j]) <= mount_len(volumes[i])
    &&& forall|j: int| #[trigger]
        lies_under(volumes, under, j) && j < i ==> mount_len(volumes[j]) < mount_len(volumes[i])
}

/// No volume owns the path: it lies under no mount point that is not empty.
pub open spec fn unowned(volumes: Seq<Volume>, under: Seq<bool>) -> bool {
    forall|j: int| #[trigger] lies_under(volumes, under, j) ==> mount_len(volumes[j]) == 0
}

/// `info` reports the volume `volume`.
pub open spec fn reports(info: DiskInfo, volume: Volume) -> bool {
    &&& info.total_space == volume.total_space
    &&& info.kind_label@ == volume.kind_label@
    &&& info.prefer_parallel == (volume.kind == DiskKind::Ssd)
}

/// `info` reports that the volume is not known.
pub open spec fn reports_unknown(info: DiskInfo) -> bool {
    &&& info.total_space == 0
    &&& info.kind_label@ == "Unknown"@
    &&& !info.prefer_parallel
}

/// `info` is the report for a path, given for each volume whether the path
/// lies under its mount point.
pub open spec fn resolved(volumes: Seq<Volume>, under: Seq<bool>, info: DiskInfo) -> bool {
    if unowned(volumes, under) {
        reports_unknown(info)
    } else {
        exists|i: int| owns(volumes, under, i) && reports(info, #[trigger] volumes[i])
    }
}

/// The text that names a kind of medium: `HDD`, `SSD`, or `Unknown` with the
/// system's code in brackets.
pub open spec fn kind_text(kind: DiskKind) -> Seq<char> {
    match kind {
        DiskKind::Hdd => "HDD"@,
        DiskKind::Ssd => "SSD"@,
        DiskKind::Unknown(code) => "Unknown("@ + signed_decimal(code as int) + ")"@,
    }
}

/// The volume is labelled with the text that names its kind.
pub open spec fn as_reported(volume: Volume) -> bool {
    volume.kind_label@ == kind_text(volume.kind)
}

/// Every volume of the list is labelled with the text that names its kind.
pub open spec fn all_as_reported(volumes: Seq<Volume>) -> bool {
    forall|i: int| 0 <= i < volumes.len() ==> as_reported(#[trigger] volumes[i])
}

/// What `std::path::Path::starts_with` answers for `path` and `base`, both
/// given as text, on the platform that the program is built for: whether
/// `base` is a prefix of `path`, whole components only.
pub uninterp spec fn path_under(path: Seq<char>, base: Seq<char>) -> bool;

/// For each volume, whether `path` lies under its mount point. It lies under
/// none that is no text.
pub open spec fn answers(path: Seq<char>, volumes: Seq<Volume>) -> Seq<bool> {
    Seq::new(
        volumes.len(),
        |i: int|
            match volumes[i].mount_point {
                Some(mount_point) => path_under(path, mount_point@),
                None => false,
            },
    )
}

/// `info` is the report for `path` among some list of volumes as the system
/// reports them.
pub open spec fn resolved_for(path: Seq<char>, info: DiskInfo) -> bool {
    exists|volumes: Seq<Volume>|
        all_as_reported(volumes) && #[trigger] resolved(volumes, answers(path, volumes), info)
}

/// The capacity in the report for a path is that of the volume that owns the
/// path, and zero where no volume owns it.
pub proof fn lemma_resolved_capacity(volumes: Seq<Volume>, under: Seq<bool>, info: DiskInfo)
    requires
        resolved(volumes, under, info),
    ensures
        unowned(volumes, under) ==> info.total_space == 0,
        forall|i: int| owns(volumes, under, i) ==> info.total_space == volumes[i].total_space,
{
    assert forall|i: int| owns(volumes, under, i) implies info.total_space
        == volumes[i].total_space by {
        assert(lies_under(volumes, under, i));
        assert(!unowned(volumes, under));
        let k = choose|k: int| owns(volumes, under, k) && reports(info, #[trigger] volumes[k]);
        assert(lies_under(volumes, under, k));
        if k < i {
            assert(mount_len(volumes[k]) < mount_len(volumes[i]));
            assert(mount_len(volumes[i]) <= mount_len(volumes[k]));
        } else if i < k {
            assert(mount_len(volumes[i]) < mount_len(volumes[k]));
            assert(mount_len(volumes[k]) <= mount_len(volumes[i]));
        }
    }
}

/// Of the texts that name a kind, only that of solid-state media is `SSD`.
pub proof fn lemma_kind_text_tells_ssd(kind: DiskKind)
    ensures
        kind_text(kind) == "SSD"@ <==> kind == DiskKind::Ssd,
        kind_text(kind) != "Unknown"@,
{
    reveal_strlit("HDD");
    reveal_strlit("SSD");
    reveal_strlit("Unknown(");
    reveal_strlit("Unknown");
    reveal_strlit(")");
    assert("Unknown"@.len() == 7);
    match kind {
        DiskKind::Hdd => {
            assert("HDD"@[0] == 'H');
            assert("SSD"@[0] == 'S');
            assert("HDD"@.len() == 3);
        },
        DiskKind::Ssd => {
            assert("SSD"@.len() == 3);
        },
        DiskKind::Unknown(code) => {
            let text = kind_text(kind);
            assert(text[0] == "Unknown("@[0]);
            assert("Unknown("@[0] == 'U');
            assert("SSD"@[0] == 'S');
            assert(text.len() >= 8);
        },
    }
}

/// Calls `sysinfo::Disks::new_with_refreshed_list` and hands out, for each
/// disk of the list, its mount point where that is text, its capacity, its
/// kind, and the kind as `sysinfo::DiskKind` writes it for debugging. Which
/// disks there are is whatever the system reports at the time. Trusted: the
/// text written for a kind is the name of its variant, `HDD`, `SSD` or
/// `Unknown`, the last with its code in round brackets behind it, as the
/// `Debug` that the type derives writes it.
#[verifier::external_body]
pub(crate) fn mounted_volumes() -> (volumes: Vec<Volume>)
    ensures
        all_as_reported(volumes@),
{
    let disks = sysinfo::Disks::new_with_refreshed_list();
    disks.list().iter().map(|disk| Volume {
        mount_point: disk.mount_point().to_str().map(str::to_string),
        total_space: disk.total_space(),
        kind: match disk.kind() {
            sysinfo::DiskKind::HDD => DiskKind::Hdd,
            sysinfo::DiskKind::SSD => DiskKind::Ssd,
            sysinfo::DiskKind::Unknown(code) => DiskKind::Unknown(code),
        },
        kind_label: format!("{:?}", disk.kind()),
    }).collect()
}

/// Calls `std::path::Path::starts_with`: whether `base` is a prefix of
/// `path`, whole components only. Trusted: the answer depends on the two
/// texts alone, so it is the one named `path_under`. How a path falls into
/// components is fixed by the platform that the program is built for, and
/// nothing more is claimed of the answer.
#[verifier::external_body]
fn path_starts_with(path: &str, base: &str) -> (under: bool)
    ensures
        under == path_under(path@, base@),
{
    std::path::Path::new(path).starts_with(base)
}

/// The volume that owns the path, given for each volume whether the path
/// lies under its mount point.
pub fn owner(volumes: &Vec<Volume>, under: &Vec<bool>) -> (best: Option<usize>)
    ensures
        match best {
            Some(i) => owns(volumes@, under@, i as int),
            None => unowned(volumes@, under@),
        },
{
    let mut best: Option<usize> = None;
    let mut best_len: usize = 0;
    let mut i: usize = 0;
    while i < volumes.len() && i < under.len()
        invariant
            i <= volumes@.len(),
            i <= under@.len(),
            match best {
                Some(b) => {
                    &&& b < i
                    &&& lies_under(volumes@, under@, b as int)
                    &&& best_len == mount_len(volumes@[b as int])
                    &&& best_len > 0
                    &&& forall|j: int| #[trigger]
                        lies_under(volumes@, under@, j) && j < i ==> mount_len(volumes@[j])
                            <= best_len
                    &&& forall|j: int| #[trigger]
                        lies_under(volumes@, under@, j) && j < b ==> mount_len(volumes@[j])
                            < best_len
                },
                None => {
                    &&& best_len == 0
                    &&& forall|j: int| #[trigger]
                        lies_under(volumes@, under@, j) && j < i ==> mount_len(volumes@[j]) == 0
                },
            },
        decreases volumes@.len() - i,
    {
        if under[i] {
            let len = match &volumes[i].mount_point {
                Some(mount_point) => mount_point.as_str().as_bytes().len(),
                None => 0,
            };
            if len > best_len {
                best = Some(i);
                best_len = len;
            }
        }
        i += 1;
    }
    best
}

/// The report on the volume chosen, or on none.
pub fn report(volumes: &Vec<Volume>, best: Option<usize>) -> (info: DiskInfo)
    ensures
        match best {
            Some(i) if i < volumes@.len() => reports(info, volumes@[i as int]),
            _ => reports_unknown(info),
        },
{
    match best {
        Some(i) if i < volumes.len() => {
            let volume = &volumes[i];
            let prefer_parallel = match volume.kind {
                DiskKind::Ssd => true,
                _ => false,
            };
            DiskInfo {
                total_space: volume.total_space,
                kind_label: volume.kind_label.clone(),
                prefer_parallel,
            }
        },
        _ => DiskInfo { total_space: 0, kind_label: "Unknown".to_owned(), prefer_parallel: false },
    }
}

/// The report for a path, given for each volume whether the path lies under
/// its mount point.
pub fn resolve(volumes: &Vec<Volume>, under: &Vec<bool>) -> (info: DiskInfo)
    ensures
        resolved(volumes@, under@, info),
{
    let best = owner(volumes, under);
    let info = report(volumes, best);
    proof {
        match best {
            Some(i) => {
                assert(lies_under(volumes@, under@, i as int));
            },
            None => {},
        }
    }
    info
}

/// The report for a path among the given volumes: that of the volume with
/// the longest mount point that the path lies under, the first of them where
/// several are as long, or that nothing is known where it lies under none.
pub fn disk_info_among(path: &str, volumes: &Vec<Volume>) -> (info: DiskInfo)
    ensures
        resolved(volumes@, answers(path@, volumes@), info),
{
    let mut under: Vec<bool> = Vec::new();
    let mut i: usize = 0;
    while i < volumes.len()
        invariant
            i <= volumes@.len(),
            under@.len() == i,
            forall|j: int| 0 <= j < i ==> under@[j] == answers(path@, volumes@)[j],
        decreases volumes@.len() - i,
    {
        let lies_under = match &volumes[i].mount_point {
            Some(mount_point) => path_starts_with(path, mount_point.as_str()),
            None => false,
        };
        under.push(lies_under);
        i += 1;
    }
    proof {
        assert(under@ =~= answers(path@, volumes@));
    }
    resolve(volumes, &under)
}

/// The report for a path among the volumes that are mounted now.
///
/// Which volumes are mounted is the system's answer. Whatever it is, the
/// report is the one for the path among them: that of the volume with the
/// longest mount point that the path lies under, or that nothing is known.
/// So a scan side by side is preferred exactly where the report names
/// solid-state media, and never where nothing is known.
pub fn get_disk_info(path: &str) -> (info: DiskInfo)
    ensures
        resolved_for(path@, info),
        info.prefer_parallel <==> info.kind_label@ == "SSD"@,
        reports_unknown(info) || info.kind_label@ != "Unknown"@,
{
    let volumes = mounted_volumes();
    let info = disk_info_among(path, &volumes);
    proof {
        let under = answers(path@, volumes@);
        assert(resolved(volumes@, under, info));
        if unowned(volumes@, under) {
            reveal_strlit("SSD");
            reveal_strlit("Unknown");
            assert("SSD"@[0] == 'S');
            assert("Unknown"@[0] == 'U');
        } else {
            let i = choose|i: int| owns(volumes@, under, i) && reports(info, #[trigger] volumes@[i]);
            assert(as_reported(volumes@[i]));
            lemma_kind_text_tells_ssd(volumes@[i].kind);
        }
    }
    info
}

/// The capacity of the volume that a path lies on, zero where none is known.
///
/// Which volumes are mounted is the system's answer. Whatever it is, the
/// size is the capacity in the report for the path among them: that of the
/// volume with the longest mount point that the path lies under, or zero
/// where it lies under none.
pub fn get_disk_size(path: &str) -> (size: u64)
    ensures
        exists|info: DiskInfo| #[trigger] resolved_for(path@, info) && size == info.total_space,
{
    get_disk_info(path).total_space
}

} // verus!
