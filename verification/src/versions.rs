//! The catalogue of published server versions.
//!
//! A [`PackagesList`] is the parsed form of the version manifest that the
//! remote package registry serves: the newest release and snapshot names,
//! and one [`McVersion`] entry per published version. Fetching the manifest
//! and downloading artifacts are network work left to the surrounding
//! program; choosing an entry out of the catalogue is decided here.

use vstd::prelude::*;

verus! {

/// The newest release and snapshot version names.
#[derive(Debug)]
pub struct Latest {
    pub release: String,
    pub snapshot: String,
}

impl Clone for Latest {
    fn clone(&self) -> (other: Self)
        ensures
            other.release@ == self.release@,
            other.snapshot@ == self.snapshot@,
    {
        Latest { release: self.release.clone(), snapshot: self.snapshot.clone() }
    }
}

/// The publication channel of a version.
#[derive(Debug, Clone, Copy)]
pub enum ReleaseType {
    Snapshot,
    Release,
    OldBeta,
    OldAlpha,
}

/// One published version: its name, channel, the address of its detailed
/// description, and its timestamps.
#[derive(Debug)]
pub struct McVersion {
    pub id: String,
    pub release_type: ReleaseType,
    pub url: String,
    pub time: String,
    pub release_time: String,
}

/// The mathematical value of a [`McVersion`].
pub ghost struct McVersionView {
    pub id: Seq<char>,
    pub release_type: ReleaseType,
    pub url: Seq<char>,
    pub time: Seq<char>,
    pub release_time: Seq<char>,
}

impl View for McVersion {
    type V = McVersionView;

    open spec fn view(&self) -> McVersionView {
        McVersionView {
            id: self.id@,
            release_type: self.release_type,
            url: self.url@,
            time: self.time@,
            release_time: self.release_time@,
        }
    }
}

impl Clone for McVersion {
    fn clone(&self) -> (other: Self)
        ensures
            other@ == self@,
    {
        McVersion {
            id: self.id.clone(),
            release_type: self.release_type,
            url: self.url.clone(),
            time: self.time.clone(),
            release_time: self.release_time.clone(),
        }
    }
}

/// A sequence of catalogue entries as mathematical values.
pub open spec fn version_views(versions: Seq<McVersion>) -> Seq<McVersionView> {
    versions.map_values(|v: McVersion| v@)
}

/// Relies on str's `PartialEq`: two string slices are equal exactly when
/// their characters are.
#[verifier::external_body]
fn str_eq(a: &str, b: &str) -> (equal: bool)
    ensures
        equal == (a@ == b@),
{
    a == b
}

/// The version manifest: the newest version names and every published
/// version.
#[derive(Debug)]
pub struct PackagesList {
    pub latest: Latest,
    pub versions: Vec<McVersion>,
}

impl PackagesList {
    /// The catalogue as mathematical values.
    pub open spec fn versions_view(&self) -> Seq<McVersionView> {
        version_views(self.versions@)
    }

    /// Look up a version by name; the first entry carrying it is returned.
    /// The catalogue must hold the name — asking for an unknown version is
    /// a caller error.
    pub fn get_version(&self, version_id: &str) -> (found: McVersion)
        requires
            exists|i: int|
                0 <= i < self.versions_view().len() && (#[trigger] self.versions_view()[i]).id
                    == version_id@,
        ensures
            exists|i: int|
                {
                    &&& 0 <= i < self.versions_view().len()
                    &&& #[trigger] self.versions_view()[i] == found@
                    &&& self.versions_view()[i].id == version_id@
                    &&& forall|j: int|
                        0 <= j < i ==> (#[trigger] self.versions_view()[j]).id != version_id@
                },
    {
        let mut i: usize = 0;
        while i < self.versions.len()
            invariant
                i <= self.versions.len(),
                forall|j: int|
                    0 <= j < i ==> (#[trigger] self.versions_view()[j]).id != version_id@,
                exists|k: int|
                    0 <= k < self.versions_view().len() && (#[trigger] self.versions_view()[k]).id
                        == version_id@,
            decreases self.versions.len() - i,
        {
            if str_eq(self.versions[i].id.as_str(), version_id) {
                let found = self.versions[i].clone();
                proof {
                    let wi = i as int;
                    assert((#[trigger] self.versions_view()[wi]) == found@);
                }
                return found;
            }
            i = i + 1;
        }
        proof {
            let k = choose|k: int|
                0 <= k < self.versions_view().len() && (#[trigger] self.versions_view()[k]).id
                    == version_id@;
            assert(self.versions_view()[k].id != version_id@);
        }
        unreached()
    }

    /// The catalogue entry for the newest release. The manifest must list
    /// its own newest release among the versions.
    pub fn get_latest_release(&self) -> (found: McVersion)
        requires
            exists|i: int|
                0 <= i < self.versions_view().len() && (#[trigger] self.versions_view()[i]).id
                    == self.latest.release@,
        ensures
            exists|i: int|
                {
                    &&& 0 <= i < self.versions_view().len()
                    &&& #[trigger] self.versions_view()[i] == found@
                    &&& self.versions_view()[i].id == self.latest.release@
                    &&& forall|j: int|
                        0 <= j < i ==> (#[trigger] self.versions_view()[j]).id
                            != self.latest.release@
                },
    {
        self.get_version(self.latest.release.as_str())
    }
}

/// Where one artifact can be fetched, with its digest and size.
#[derive(Debug)]
pub struct DownloadInfo {
    pub sha1: String,
    pub size: usize,
    pub url: String,
}

impl Clone for DownloadInfo {
    fn clone(&self) -> (other: Self)
        ensures
            other.sha1@ == self.sha1@,
            other.size == self.size,
            other.url@ == self.url@,
    {
        DownloadInfo { sha1: self.sha1.clone(), size: self.size, url: self.url.clone() }
    }
}

/// The artifacts published for one version.
#[derive(Debug, Clone)]
pub struct VersionDownloads {
    pub client: DownloadInfo,
    pub client_mappings: DownloadInfo,
    pub server: DownloadInfo,
    pub server_mappings: DownloadInfo,
}

/// The detailed description of one version: its artifacts and its name.
#[derive(Debug, Clone)]
pub struct VersionInfo {
    pub downloads: VersionDownloads,
    pub id: String,
}

} // verus!
