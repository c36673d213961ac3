//! Expiring the disk cache.
//!
//! Since the cache directory is limited in size but local to the machine, it is acceptable to
//! delete files from it at any time. One of its 256 * 256 folders is removed at a time.

use crate::digest::lower_hex;
use crate::text::{hex_byte, law_hex_byte_is_injective, push_hex_byte};
use vstd::prelude::*;

verus! {

/// How long to sleep between two folders.
pub const CLEAN_INTERVAL_SECS: u64 = 60;

/// A folder of the cache directory.
pub struct CleanTarget {
    /// The path of the folder in the cache directory.
    pub subfolder: String,
    /// The path that the folder is moved to before it is removed.
    pub subfolder_tmp: String,
}

/// A folder of the cache directory, by its paths.
pub struct TargetView {
    /// The path of the folder in the cache directory.
    pub subfolder: Seq<char>,
    /// The path that the folder is moved to before it is removed.
    pub subfolder_tmp: Seq<char>,
}

impl View for CleanTarget {
    type V = TargetView;

    open spec fn view(&self) -> TargetView {
        TargetView { subfolder: self.subfolder@, subfolder_tmp: self.subfolder_tmp@ }
    }
}

/// The path of the folder with the number `prefix`: its two bytes, in two digits each.
pub open spec fn subfolder_path(prefix: u16) -> Seq<char> {
    hex_byte((prefix / 256) as u8) + "/"@ + hex_byte((prefix % 256) as u8)
}

/// The path that the folder with the number `prefix` is moved to.
pub open spec fn subfolder_tmp_path(prefix: u16) -> Seq<char> {
    hex_byte((prefix / 256) as u8) + "/.tmp-"@ + hex_byte((prefix % 256) as u8)
}

/// The folder with the number `prefix`.
pub open spec fn numbered_target(prefix: u16) -> TargetView {
    TargetView { subfolder: subfolder_path(prefix), subfolder_tmp: subfolder_tmp_path(prefix) }
}

/// The folder with the number `prefix`.
pub fn clean_target(prefix: u16) -> (target: CleanTarget)
    ensures
        target@ == numbered_target(prefix),
        target.subfolder@ == subfolder_path(prefix),
        target.subfolder_tmp@ == subfolder_tmp_path(prefix),
{
    let d1: u8 = (prefix / 256) as u8;
    let d2: u8 = (prefix % 256) as u8;
    let mut subfolder: String = String::new();
    push_hex_byte(&mut subfolder, d1);
    let mut subfolder_tmp: String = subfolder.clone();
    subfolder.append("/");
    push_hex_byte(&mut subfolder, d2);
    subfolder_tmp.append("/.tmp-");
    push_hex_byte(&mut subfolder_tmp, d2);
    assert(subfolder@ =~= subfolder_path(prefix));
    assert(subfolder_tmp@ =~= subfolder_tmp_path(prefix));
    CleanTarget { subfolder, subfolder_tmp }
}

/// What the cleaner does next.
pub enum CleanStep {
    /// Sleep for [`CLEAN_INTERVAL_SECS`].
    Sleep,
    /// Look whether the folder exists.
    Check(CleanTarget),
    /// Remove what an earlier attempt may have left behind at the temporary path.
    ClearTemporary(CleanTarget),
    /// Move the folder to the temporary path.
    Rename(CleanTarget),
    /// Remove the folder at the temporary path.
    Remove(CleanTarget),
}

/// What the cleaner does next, over the paths of the folder.
pub enum CleanView {
    /// Sleep.
    Sleep,
    /// Look whether the folder exists.
    Check(TargetView),
    /// Remove what is at the temporary path.
    ClearTemporary(TargetView),
    /// Move the folder to the temporary path.
    Rename(TargetView),
    /// Remove the folder at the temporary path.
    Remove(TargetView),
}

impl View for CleanStep {
    type V = CleanView;

    open spec fn view(&self) -> CleanView {
        match *self {
            CleanStep::Sleep => CleanView::Sleep,
            CleanStep::Check(target) => CleanView::Check(target@),
            CleanStep::ClearTemporary(target) => CleanView::ClearTemporary(target@),
            CleanStep::Rename(target) => CleanView::Rename(target@),
            CleanStep::Remove(target) => CleanView::Remove(target@),
        }
    }
}

/// What follows `step`, given whether that succeeded, and which folder is the next one after a
/// sleep. A folder that does not exist, or that cannot be moved, is left alone; that something
/// could not be removed does not matter.
pub open spec fn clean_next(step: CleanView, succeeded: bool, prefix: u16) -> CleanView {
    match step {
        CleanView::Sleep => CleanView::Check(numbered_target(prefix)),
        CleanView::Check(target) => if succeeded {
            CleanView::ClearTemporary(target)
        } else {
            CleanView::Sleep
        },
        CleanView::ClearTemporary(target) => CleanView::Rename(target),
        CleanView::Rename(target) => if succeeded {
            CleanView::Remove(target)
        } else {
            CleanView::Sleep
        },
        CleanView::Remove(_) => CleanView::Sleep,
    }
}

/// What the cleaner does after `step`, given whether that succeeded, and which folder is the next
/// one after a sleep.
pub fn next_clean_step(step: CleanStep, succeeded: bool, prefix: u16) -> (next: CleanStep)
    ensures
        next@ == clean_next(step@, succeeded, prefix),
        match step {
            CleanStep::Sleep => next matches CleanStep::Check(target) && target.subfolder@
                == subfolder_path(prefix) && target.subfolder_tmp@ == subfolder_tmp_path(prefix),
            CleanStep::Check(target) => next == (if succeeded {
                CleanStep::ClearTemporary(target)
            } else {
                CleanStep::Sleep
            }),
            CleanStep::ClearTemporary(target) => next == CleanStep::Rename(target),
            CleanStep::Rename(target) => next == (if succeeded {
                CleanStep::Remove(target)
            } else {
                CleanStep::Sleep
            }),
            CleanStep::Remove(_) => next == CleanStep::Sleep,
        },
{
    match step {
        CleanStep::Sleep => CleanStep::Check(clean_target(prefix)),
        CleanStep::Check(target) => if succeeded {
            CleanStep::ClearTemporary(target)
        } else {
            CleanStep::Sleep
        },
        CleanStep::ClearTemporary(target) => CleanStep::Rename(target),
        CleanStep::Rename(target) => if succeeded {
            CleanStep::Remove(target)
        } else {
            CleanStep::Sleep
        },
        CleanStep::Remove(_) => CleanStep::Sleep,
    }
}

/// `fastrand::u16` on the full range: some number, which nothing is said about.
#[verifier::external_body]
fn random_prefix() -> u16 {
    fastrand::u16(..)
}

/// What the cleaner does after `step`, given whether that succeeded. After a sleep it takes a
/// folder at random: which one is left open.
pub fn clean_step(step: CleanStep, succeeded: bool) -> (next: CleanStep)
    ensures
        exists|prefix: u16| next@ == #[trigger] clean_next(step@, succeeded, prefix),
{
    let prefix: u16 = random_prefix();
    next_clean_step(step, succeeded, prefix)
}

/// Different numbers are different folders.
pub proof fn law_folders_are_distinct(a: u16, b: u16)
    requires
        subfolder_path(a) == subfolder_path(b),
    ensures
        a == b,
{
    reveal_strlit("/");
    let path = subfolder_path(a);
    assert(path.take(2) =~= hex_byte((a / 256) as u8));
    assert(path.take(2) =~= hex_byte((b / 256) as u8));
    assert(path.skip(3) =~= hex_byte((a % 256) as u8));
    assert(path.skip(3) =~= hex_byte((b % 256) as u8));
    law_hex_byte_is_injective((a / 256) as u8, (b / 256) as u8);
    law_hex_byte_is_injective((a % 256) as u8, (b % 256) as u8);
}

/// No folder is moved onto a folder that holds cached pages.
pub proof fn law_temporary_path_is_no_folder(a: u16, b: u16)
    ensures
        subfolder_tmp_path(a) != subfolder_path(b),
{
    reveal_strlit("/");
    reveal_strlit("/.tmp-");
    assert(subfolder_tmp_path(a).len() == 10);
    assert(subfolder_path(b).len() == 5);
}

/// The temporary path of a folder is beside the folder, under the name of the folder behind a
/// mark that no folder's name has, so that different folders have different temporary paths.
pub proof fn law_temporary_path_is_beside_folder(prefix: u16, other: u16)
    ensures
        subfolder_path(prefix).len() == 5,
        subfolder_path(prefix)[2] == '/',
        subfolder_tmp_path(prefix) == subfolder_path(prefix).take(3) + ".tmp-"@ + subfolder_path(
            prefix,
        ).skip(3),
        subfolder_tmp_path(prefix) == subfolder_tmp_path(other) ==> prefix == other,
{
    reveal_strlit("/");
    reveal_strlit("/.tmp-");
    reveal_strlit(".tmp-");
    let path = subfolder_path(prefix);
    let tmp = subfolder_tmp_path(prefix);
    assert(tmp =~= path.take(3) + ".tmp-"@ + path.skip(3));
    if tmp == subfolder_tmp_path(other) {
        assert(tmp.take(2) =~= hex_byte((prefix / 256) as u8));
        assert(tmp.take(2) =~= hex_byte((other / 256) as u8));
        assert(tmp.skip(8) =~= hex_byte((prefix % 256) as u8));
        assert(tmp.skip(8) =~= hex_byte((other % 256) as u8));
        law_hex_byte_is_injective((prefix / 256) as u8, (other / 256) as u8);
        law_hex_byte_is_injective((prefix % 256) as u8, (other % 256) as u8);
    }
}

/// The folder of a hash: its first two digits, and in there its next two.
pub open spec fn hash_folder(hash: Seq<char>) -> Seq<char> {
    hash.take(2) + "/"@ + hash.subrange(2, 4)
}

/// Every hash has its folder, and there is exactly one number for which that folder is removed:
/// the number that the first two bytes of the digest make up.
pub proof fn law_hash_is_in_one_folder(digest: Seq<u8>, prefix: u16)
    requires
        digest.len() >= 2,
    ensures
        subfolder_path(prefix) == hash_folder(lower_hex(digest)) <==> prefix == 256 * digest[0]
            + digest[1],
        subfolder_path(prefix) == lower_hex(digest).take(2) + "/"@ + lower_hex(digest).subrange(2, 4)
            <==> prefix == 256 * digest[0] + digest[1],
{
    reveal_strlit("/");
    let hash = lower_hex(digest);
    let number = (256 * digest[0] + digest[1]) as u16;
    assert(number / 256 == digest[0] && number % 256 == digest[1]);
    assert(hash.take(2) =~= hex_byte(digest[0]));
    assert(hash.subrange(2, 4) =~= hex_byte(digest[1]));
    assert(subfolder_path(number) =~= hash_folder(hash));
    if subfolder_path(prefix) == hash_folder(hash) {
        law_folders_are_distinct(prefix, number);
    }
}

/// The folders that there are once `step` was done. A step that failed leaves them as they are.
pub open spec fn cleaned(
    folders: Set<Seq<char>>,
    step: CleanView,
    succeeded: bool,
) -> Set<Seq<char>> {
    match step {
        CleanView::ClearTemporary(target) if succeeded => folders.remove(target.subfolder_tmp),
        CleanView::Rename(target) if succeeded => folders.remove(target.subfolder).insert(
            target.subfolder_tmp,
        ),
        CleanView::Remove(target) if succeeded => folders.remove(target.subfolder_tmp),
        _ => folders,
    }
}

/// A round that drew the number `prefix` removes the folder with that number, where it exists and
/// can be moved, whether or not anything was left at its temporary path. It touches no other
/// folder, and where there is no such folder it does nothing at all. Then the cleaner sleeps.
pub proof fn law_round_removes_its_folder(
    folders: Set<Seq<char>>,
    prefix: u16,
    cleared: bool,
    renamed: bool,
    removed: bool,
    other: Seq<char>,
)
    requires
        other != subfolder_path(prefix),
        other != subfolder_tmp_path(prefix),
    ensures
        ({
            let exists_folder = folders.contains(subfolder_path(prefix));
            let check = clean_next(CleanView::Sleep, true, prefix);
            let clear = clean_next(check, exists_folder, prefix);
            let rename = clean_next(clear, cleared, prefix);
            let remove = clean_next(rename, renamed, prefix);
            let after_clear = cleaned(folders, clear, cleared);
            let after_rename = cleaned(after_clear, rename, renamed);
            let after = cleaned(after_rename, remove, removed);
            &&& cleaned(folders, check, exists_folder) == folders
            &&& !exists_folder ==> clear == CleanView::Sleep
            &&& exists_folder ==> {
                &&& after.contains(other) == folders.contains(other)
                &&& !renamed ==> {
                    &&& remove == CleanView::Sleep
                    &&& after_rename.contains(subfolder_path(prefix))
                }
                &&& renamed ==> {
                    &&& clean_next(remove, removed, prefix) == CleanView::Sleep
                    &&& !after.contains(subfolder_path(prefix))
                    &&& removed ==> !after.contains(subfolder_tmp_path(prefix))
                }
            }
        }),
{
    law_temporary_path_is_no_folder(prefix, prefix);
}

} // verus!
