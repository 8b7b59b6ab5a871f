//! When a change is announced: notification profiles with their change
//! types and quiet hours, and the cloud folder a path is synced by.
use vstd::prelude::*;
use crate::records::{CloudFolder, NotificationProfile};
use crate::text::{chars_of, has_prefix, starts_with, str_eq, to_lowercase, unicode_lowercase};

verus! {

/// Whether a profile wants changes of this type (unknown types: yes).
pub open spec fn type_allowed(p: NotificationProfile, ct: Seq<char>) -> bool {
    if ct == "NEW"@ {
        p.notify_new
    } else if ct == "MODIFIED"@ {
        p.notify_modified
    } else if ct == "DELETED"@ {
        p.notify_deleted
    } else if ct == "MOVED"@ {
        p.notify_moved
    } else {
        true
    }
}

/// Whether `hour` lies in the profile's quiet hours; a start after the end
/// wraps past midnight.
pub open spec fn in_quiet_hours(p: NotificationProfile, hour: i64) -> bool {
    if p.quiet_hours_start <= p.quiet_hours_end {
        hour >= p.quiet_hours_start && hour < p.quiet_hours_end
    } else {
        hour >= p.quiet_hours_start || hour < p.quiet_hours_end
    }
}

/// A profile lets the change through now.
pub open spec fn profile_allows(p: NotificationProfile, ct: Seq<char>, hour: i64) -> bool {
    p.enabled && type_allowed(p, ct) && !in_quiet_hours(p, hour)
}

/// Without enabled profiles every change is announced; otherwise one
/// enabled profile must let it through.
pub open spec fn notification_allowed(ps: Seq<NotificationProfile>, ct: Seq<char>, hour: i64) -> bool {
    (forall|k: int| 0 <= k < ps.len() ==> !(#[trigger] ps[k]).enabled) || exists|k: int|
        0 <= k < ps.len() && profile_allows(#[trigger] ps[k], ct, hour)
}

fn type_allowed_exec(p: &NotificationProfile, ct: &str) -> (r: bool)
    ensures
        r == type_allowed(*p, ct@),
{
    if str_eq(ct, "NEW") {
        p.notify_new
    } else if str_eq(ct, "MODIFIED") {
        p.notify_modified
    } else if str_eq(ct, "DELETED") {
        p.notify_deleted
    } else if str_eq(ct, "MOVED") {
        p.notify_moved
    } else {
        true
    }
}

/// Whether a change of type `change_type` is announced at local hour
/// `hour`, under the given profiles.
pub fn should_send_notification(profiles: &Vec<NotificationProfile>, change_type: &str, hour: i64) -> (r: bool)
    ensures
        r == notification_allowed(profiles@, change_type@, hour),
{
    let mut any_enabled = false;
    let mut k: usize = 0;
    while k < profiles.len()
        invariant
            k <= profiles@.len(),
            any_enabled == exists|q: int| 0 <= q < k && (#[trigger] profiles@[q]).enabled,
            forall|q: int| 0 <= q < k ==> !profile_allows(#[trigger] profiles@[q], change_type@, hour),
        decreases profiles.len() - k,
    {
        let p = &profiles[k];
        if p.enabled {
            any_enabled = true;
            if type_allowed_exec(p, change_type) {
                let quiet = if p.quiet_hours_start <= p.quiet_hours_end {
                    hour >= p.quiet_hours_start && hour < p.quiet_hours_end
                } else {
                    hour >= p.quiet_hours_start || hour < p.quiet_hours_end
                };
                if !quiet {
                    assert(profile_allows(profiles@[k as int], change_type@, hour));
                    return true;
                }
            }
        }
        k = k + 1;
    }
    !any_enabled
}

/// The provider of the first cloud folder the path lies in, compared as
/// written or ignoring case.
pub open spec fn cloud_provider(fs: Seq<CloudFolder>, path: Seq<char>) -> Option<Seq<char>>
    decreases fs.len(),
{
    if fs.len() == 0 {
        None
    } else {
        match cloud_provider(fs.drop_last(), path) {
            Some(p) => Some(p),
            None => if starts_with(path, fs.last().path@) || starts_with(
                unicode_lowercase(path),
                unicode_lowercase(fs.last().path@),
            ) {
                Some(fs.last().provider@)
            } else {
                None
            },
        }
    }
}

proof fn lemma_cloud_prefix(fs: Seq<CloudFolder>, path: Seq<char>, k: int)
    requires
        0 <= k < fs.len(),
        cloud_provider(fs.take(k), path) is None,
    ensures
        cloud_provider(fs.take(k + 1), path) == (if starts_with(path, fs[k].path@) || starts_with(
            unicode_lowercase(path),
            unicode_lowercase(fs[k].path@),
        ) {
            Some(fs[k].provider@)
        } else {
            None::<Seq<char>>
        }),
{
    assert(fs.take(k + 1).drop_last() =~= fs.take(k));
}

/// The cloud provider syncing `path`, if a detected cloud folder holds it.
pub fn is_path_in_cloud_folder(folders: &Vec<CloudFolder>, path: &str) -> (r: Option<String>)
    ensures
        match r {
            Some(p) => cloud_provider(folders@, path@) == Some(p@),
            None => cloud_provider(folders@, path@) is None,
        },
{
    let pc = chars_of(path);
    let pl = to_lowercase(path);
    let plc = chars_of(pl.as_str());
    let mut k: usize = 0;
    assert(folders@.take(0) =~= Seq::<CloudFolder>::empty());
    while k < folders.len()
        invariant
            k <= folders@.len(),
            pc@ == path@,
            plc@ == unicode_lowercase(path@),
            cloud_provider(folders@.take(k as int), path@) is None,
        decreases folders.len() - k,
    {
        let f = &folders[k];
        proof {
            lemma_cloud_prefix(folders@, path@, k as int);
        }
        let fl = to_lowercase(f.path.as_str());
        if has_prefix(&pc, &chars_of(f.path.as_str())) || has_prefix(&plc, &chars_of(fl.as_str())) {
            proof {
                lemma_cloud_first(folders@, path@, k as int);
            }
            return Some(f.provider.clone());
        }
        k = k + 1;
    }
    assert(folders@.take(folders.len() as int) =~= folders@);
    None
}

proof fn lemma_cloud_first(fs: Seq<CloudFolder>, path: Seq<char>, k: int)
    requires
        0 <= k < fs.len(),
        cloud_provider(fs.take(k + 1), path) is Some,
    ensures
        cloud_provider(fs, path) == cloud_provider(fs.take(k + 1), path),
    decreases fs.len(),
{
    if k + 1 == fs.len() {
        assert(fs.take(k + 1) =~= fs);
    } else {
        assert(fs.drop_last().take(k + 1) =~= fs.take(k + 1));
        lemma_cloud_first(fs.drop_last(), path, k);
    }
}

/// The folder names under the home directory that cloud clients sync,
/// with their provider and display name.
pub open spec fn cloud_candidates() -> Seq<(Seq<char>, Seq<char>, Seq<char>)> {
    seq![
        ("OneDrive"@, "onedrive"@, "OneDrive"@),
        ("Google Drive"@, "gdrive"@, "Google Drive"@),
        ("Dropbox"@, "dropbox"@, "Dropbox"@),
        ("iCloudDrive"@, "icloud"@, "iCloud Drive"@),
        ("OneDrive - Personal"@, "onedrive"@, "OneDrive - Personal"@),
        ("OneDrive - Business"@, "onedrive"@, "OneDrive - Business"@),
    ]
}

/// The cloud folder candidates, in the order they are probed.
pub fn cloud_folder_candidates() -> (r: Vec<(&'static str, &'static str, &'static str)>)
    ensures
        r@.map_values(|t: (&'static str, &'static str, &'static str)| (t.0@, t.1@, t.2@))
            == cloud_candidates(),
{
    let r = vec![
        ("OneDrive", "onedrive", "OneDrive"),
        ("Google Drive", "gdrive", "Google Drive"),
        ("Dropbox", "dropbox", "Dropbox"),
        ("iCloudDrive", "icloud", "iCloud Drive"),
        ("OneDrive - Personal", "onedrive", "OneDrive - Personal"),
        ("OneDrive - Business", "onedrive", "OneDrive - Business"),
    ];
    assert(r@.map_values(|t: (&'static str, &'static str, &'static str)| (t.0@, t.1@, t.2@))
        =~= cloud_candidates());
    r
}

} // verus!
