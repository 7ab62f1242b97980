//! Release engineering: semantic versions, changelog, artifacts and
//! quality gates that decide whether a release is ready.
use vstd::prelude::*;
use crate::keyed::{lemma_map_of_contains, lemma_map_of_index, VecMap};
use crate::common::owned;
use crate::text::{decimal, u64_to_decimal};

verus! {

#[derive(Clone, Copy, Debug, PartialEq, Eq, PartialOrd, Ord, Hash, Structural)]
pub struct Version {
    pub major: u32,
    pub minor: u32,
    pub patch: u32,
}

/// Versions order by major, then minor, then patch.
pub open spec fn version_lt(a: Version, b: Version) -> bool {
    a.major < b.major
        || (a.major == b.major && a.minor < b.minor)
        || (a.major == b.major && a.minor == b.minor && a.patch < b.patch)
}

/// "major.minor.patch" in decimal.
pub open spec fn version_text(v: Version) -> Seq<char> {
    decimal(v.major as nat) + seq!['.'] + decimal(v.minor as nat) + seq!['.'] + decimal(v.patch as nat)
}

/// Versions are totally ordered: no version precedes itself, precedence is
/// transitive, and of two different versions one precedes the other.
pub proof fn lemma_version_order(a: Version, b: Version, c: Version)
    ensures
        !version_lt(a, a),
        version_lt(a, b) && version_lt(b, c) ==> version_lt(a, c),
        a != b ==> version_lt(a, b) || version_lt(b, a),
        version_lt(a, b) ==> !version_lt(b, a),
{
}

impl Version {
    pub fn new(major: u32, minor: u32, patch: u32) -> (v: Version)
        ensures
            v == (Version { major, minor, patch }),
    {
        Version { major, minor, patch }
    }

    /// The next major version: minor and patch reset.
    pub fn bump_major(&self) -> (v: Version)
        requires
            self.major < u32::MAX,
        ensures
            v == (Version { major: (self.major + 1) as u32, minor: 0, patch: 0 }),
            version_lt(*self, v),
    {
        Version { major: self.major + 1, minor: 0, patch: 0 }
    }

    /// The next minor version: patch reset.
    pub fn bump_minor(&self) -> (v: Version)
        requires
            self.minor < u32::MAX,
        ensures
            v == (Version { major: self.major, minor: (self.minor + 1) as u32, patch: 0 }),
            version_lt(*self, v),
    {
        Version { major: self.major, minor: self.minor + 1, patch: 0 }
    }

    /// The next patch version.
    pub fn bump_patch(&self) -> (v: Version)
        requires
            self.patch < u32::MAX,
        ensures
            v == (Version { major: self.major, minor: self.minor, patch: (self.patch + 1) as u32 }),
            version_lt(*self, v),
    {
        Version { major: self.major, minor: self.minor, patch: self.patch + 1 }
    }

    /// Whether `self` comes before `other`.
    pub fn precedes(&self, other: &Version) -> (b: bool)
        ensures
            b == version_lt(*self, *other),
    {
        self.major < other.major
            || (self.major == other.major && self.minor < other.minor)
            || (self.major == other.major && self.minor == other.minor && self.patch < other.patch)
    }

    /// The version as "major.minor.patch".
    pub fn to_string(&self) -> (s: String)
        ensures
            s@ == version_text(*self),
    {
        let dot = ".";
        proof {
            reveal_strlit(".");
        }
        let s = u64_to_decimal(self.major as u64)
            .concat(dot)
            .concat(u64_to_decimal(self.minor as u64).as_str())
            .concat(dot)
            .concat(u64_to_decimal(self.patch as u64).as_str());
        assert(s@ =~= version_text(*self));
        s
    }
}

#[derive(Clone, Copy, Debug, PartialEq, Eq, Structural)]
pub enum ChangeType {
    Feature,
    Enhancement,
    BugFix,
    Security,
    Performance,
    Documentation,
}

#[derive(Clone, Debug)]
pub struct ChangeLogEntry {
    pub version: Version,
    pub date: String,
    pub change_type: ChangeType,
    pub description: String,
    pub breaking: bool,
}

impl ChangeLogEntry {
    pub fn duplicate(&self) -> (e: ChangeLogEntry)
        ensures
            e == *self,
    {
        ChangeLogEntry {
            version: self.version,
            date: self.date.clone(),
            change_type: self.change_type,
            description: self.description.clone(),
            breaking: self.breaking,
        }
    }
}

#[derive(Clone, Debug)]
pub struct ReleaseArtifact {
    pub version: Version,
    pub artifact_type: String,
    pub size_bytes: usize,
    pub checksum: String,
    pub download_url: String,
}

#[derive(Clone, Copy, Debug, PartialEq, Eq, Structural)]
pub enum ReleaseStatus {
    Development,
    Beta,
    ReleaseCandidate,
    Stable,
    LongTermSupport,
}

/// Total size of the artifacts in `s`.
pub open spec fn artifacts_size(s: Seq<ReleaseArtifact>) -> nat
    decreases s.len(),
{
    if s.len() == 0 { 0 } else { artifacts_size(s.drop_last()) + s.last().size_bytes as nat }
}

/// Every gate recorded in `gates` passed.
pub open spec fn gates_pass(gates: Map<Seq<char>, bool>) -> bool {
    forall|k: Seq<char>| #[trigger] gates.contains_key(k) ==> gates[k]
}

pub struct ReleaseManager {
    current_version: Version,
    changelog: Vec<ChangeLogEntry>,
    artifacts: Vec<ReleaseArtifact>,
    status: ReleaseStatus,
    quality_gates: VecMap<String, bool>,
}

impl Default for ReleaseManager {
    fn default() -> (m: ReleaseManager)
        ensures
            m.wf(),
            m.version() == Version::new_spec(1, 0, 0),
            m.changelog_view().len() == 0,
            m.artifacts_view().len() == 0,
            m.status_view() == ReleaseStatus::Development,
            m.gates() == Map::<Seq<char>, bool>::empty(),
    {
        ReleaseManager::new(1, 0, 0)
    }
}

impl Version {
    pub open spec fn new_spec(major: u32, minor: u32, patch: u32) -> Version {
        Version { major, minor, patch }
    }
}

impl ReleaseManager {
    pub closed spec fn wf(&self) -> bool {
        self.quality_gates.wf()
    }

    pub closed spec fn version(&self) -> Version {
        self.current_version
    }

    pub closed spec fn changelog_view(&self) -> Seq<ChangeLogEntry> {
        self.changelog@
    }

    pub closed spec fn artifacts_view(&self) -> Seq<ReleaseArtifact> {
        self.artifacts@
    }

    pub closed spec fn status_view(&self) -> ReleaseStatus {
        self.status
    }

    /// Gate name to whether it passed.
    pub closed spec fn gates(&self) -> Map<Seq<char>, bool> {
        self.quality_gates@
    }

    /// A manager at version `major.minor.patch`, in development, with no
    /// changelog, artifacts or gates.
    pub fn new(major: u32, minor: u32, patch: u32) -> (m: ReleaseManager)
        ensures
            m.wf(),
            m.version() == Version::new_spec(major, minor, patch),
            m.changelog_view().len() == 0,
            m.artifacts_view().len() == 0,
            m.status_view() == ReleaseStatus::Development,
            m.gates() == Map::<Seq<char>, bool>::empty(),
    {
        ReleaseManager {
            current_version: Version::new(major, minor, patch),
            changelog: Vec::new(),
            artifacts: Vec::new(),
            status: ReleaseStatus::Development,
            quality_gates: VecMap::new(),
        }
    }

    pub fn get_version(&self) -> (v: &Version)
        ensures
            *v == self.version(),
    {
        &self.current_version
    }

    pub fn set_version(&mut self, version: Version)
        ensures
            final(self).version() == version,
            final(self).wf() == old(self).wf(),
            final(self).changelog_view() == old(self).changelog_view(),
            final(self).artifacts_view() == old(self).artifacts_view(),
            final(self).status_view() == old(self).status_view(),
            final(self).gates() == old(self).gates(),
    {
        self.current_version = version;
    }

    pub fn add_changelog_entry(&mut self, entry: ChangeLogEntry)
        ensures
            final(self).changelog_view() == old(self).changelog_view().push(entry),
            final(self).wf() == old(self).wf(),
            final(self).version() == old(self).version(),
            final(self).artifacts_view() == old(self).artifacts_view(),
            final(self).status_view() == old(self).status_view(),
            final(self).gates() == old(self).gates(),
    {
        self.changelog.push(entry);
    }

    pub fn register_artifact(&mut self, artifact: ReleaseArtifact)
        ensures
            final(self).artifacts_view() == old(self).artifacts_view().push(artifact),
            final(self).wf() == old(self).wf(),
            final(self).version() == old(self).version(),
            final(self).changelog_view() == old(self).changelog_view(),
            final(self).status_view() == old(self).status_view(),
            final(self).gates() == old(self).gates(),
    {
        self.artifacts.push(artifact);
    }

    pub fn set_status(&mut self, status: ReleaseStatus)
        ensures
            final(self).status_view() == status,
            final(self).wf() == old(self).wf(),
            final(self).version() == old(self).version(),
            final(self).changelog_view() == old(self).changelog_view(),
            final(self).artifacts_view() == old(self).artifacts_view(),
            final(self).gates() == old(self).gates(),
    {
        self.status = status;
    }

    pub fn get_status(&self) -> (s: &ReleaseStatus)
        ensures
            *s == self.status_view(),
    {
        &self.status
    }

    /// Record the outcome of quality gate `gate_name`, replacing any outcome
    /// recorded for it before.
    pub fn set_quality_gate(&mut self, gate_name: String, passed: bool)
        requires
            old(self).wf(),
        ensures
            final(self).wf(),
            final(self).gates() == old(self).gates().insert(gate_name@, passed),
            final(self).version() == old(self).version(),
            final(self).changelog_view() == old(self).changelog_view(),
            final(self).artifacts_view() == old(self).artifacts_view(),
            final(self).status_view() == old(self).status_view(),
    {
        self.quality_gates.insert(gate_name, passed);
    }

    /// Whether every recorded gate passed (true when there are none).
    pub fn all_gates_passed(&self) -> (b: bool)
        requires
            self.wf(),
        ensures
            b == gates_pass(self.gates()),
    {
        let n = self.quality_gates.entries.len();
        let mut i: usize = 0;
        while i < n
            invariant
                self.quality_gates.wf(),
                n == self.quality_gates.entries@.len(),
                i <= n,
                forall|j: int| 0 <= j < i ==> (#[trigger] self.quality_gates.entries@[j]).1,
            decreases n - i,
        {
            if !self.quality_gates.entries[i].1 {
                proof {
                    lemma_map_of_index(self.quality_gates.entries@, i as int);
                    let k = self.quality_gates.entries@[i as int].0@;
                    assert(self.quality_gates@.contains_key(k) && !self.quality_gates@[k]);
                }
                return false;
            }
            i = i + 1;
        }
        proof {
            assert forall|k: Seq<char>| #[trigger] self.quality_gates@.contains_key(k) implies self.quality_gates@[k] by {
                lemma_map_of_contains(self.quality_gates.entries@, k);
                let j = choose|j: int| 0 <= j < self.quality_gates.entries@.len() && self.quality_gates.entries@[j].0@ == k;
                lemma_map_of_index(self.quality_gates.entries@, j);
                assert(self.quality_gates.entries@[j].1);
            }
        }
        true
    }

    /// The verdict of gate `gate_name`, if recorded.
    pub fn gate_status(&self, gate_name: &str) -> (r: Option<bool>)
        requires
            self.wf(),
        ensures
            match r {
                Some(p) => self.gates().contains_key(gate_name@) && p == self.gates()[gate_name@],
                None => !self.gates().contains_key(gate_name@),
            },
    {
        match self.quality_gates.get(&owned(gate_name)) {
            Some(p) => Some(*p),
            None => None,
        }
    }

    pub fn get_changelog(&self) -> (r: &[ChangeLogEntry])
        ensures
            r@ == self.changelog_view(),
    {
        self.changelog.as_slice()
    }

    pub fn get_artifacts(&self) -> (r: &[ReleaseArtifact])
        ensures
            r@ == self.artifacts_view(),
    {
        self.artifacts.as_slice()
    }

    /// Copies of the changelog entries for `version`, in order.
    pub fn changelog_summary(&self, version: &Version) -> (r: Vec<ChangeLogEntry>)
        ensures
            r@ == self.changelog_view().filter(|e: ChangeLogEntry| e.version == *version),
    {
        let ghost pred = |e: ChangeLogEntry| e.version == *version;
        let ghost l = self.changelog@;
        let mut out: Vec<ChangeLogEntry> = Vec::new();
        let mut i: usize = 0;
        while i < self.changelog.len()
            invariant
                l == self.changelog@,
                i <= l.len(),
                pred == (|e: ChangeLogEntry| e.version == *version),
                out@ == l.subrange(0, i as int).filter(pred),
            decreases l.len() - i,
        {
            proof {
                assert(l.subrange(0, i as int + 1) =~= l.subrange(0, i as int).push(l[i as int]));
                l.subrange(0, i as int).lemma_filter_push(l[i as int], pred);
            }
            if self.changelog[i].version == *version {
                out.push(self.changelog[i].duplicate());
            }
            i = i + 1;
        }
        assert(l.subrange(0, l.len() as int) =~= l);
        out
    }

    /// Whether some changelog entry is breaking.
    pub fn has_breaking_changes(&self) -> (b: bool)
        ensures
            b == exists|i: int| 0 <= i < self.changelog_view().len() && (#[trigger] self.changelog_view()[i]).breaking,
    {
        let mut i: usize = 0;
        while i < self.changelog.len()
            invariant
                i <= self.changelog@.len(),
                forall|j: int| 0 <= j < i ==> !(#[trigger] self.changelog@[j]).breaking,
            decreases self.changelog@.len() - i,
        {
            if self.changelog[i].breaking {
                assert(self.changelog_view()[i as int].breaking);
                return true;
            }
            i = i + 1;
        }
        false
    }

    pub fn total_artifacts(&self) -> (n: usize)
        ensures
            n == self.artifacts_view().len(),
    {
        self.artifacts.len()
    }

    /// Sum of the artifact sizes.
    pub fn total_artifact_size(&self) -> (n: usize)
        requires
            artifacts_size(self.artifacts_view()) <= usize::MAX,
        ensures
            n == artifacts_size(self.artifacts_view()),
    {
        let ghost s = self.artifacts@;
        let mut total: usize = 0;
        let mut i: usize = 0;
        while i < self.artifacts.len()
            invariant
                s == self.artifacts@,
                i <= s.len(),
                artifacts_size(s) <= usize::MAX,
                total == artifacts_size(s.subrange(0, i as int)),
            decreases s.len() - i,
        {
            proof {
                assert(s.subrange(0, i as int + 1).drop_last() =~= s.subrange(0, i as int));
                lemma_artifacts_size_prefix(s, i as int + 1);
            }
            total = total + self.artifacts[i].size_bytes;
            i = i + 1;
        }
        assert(s.subrange(0, i as int) =~= s);
        total
    }

    /// All gates passed and there is at least one changelog entry and one
    /// artifact.
    pub fn is_release_ready(&self) -> (b: bool)
        requires
            self.wf(),
        ensures
            b == (gates_pass(self.gates()) && self.changelog_view().len() > 0 && self.artifacts_view().len() > 0),
    {
        self.all_gates_passed() && self.changelog.len() > 0 && self.artifacts.len() > 0
    }

    /// Number of feature entries.
    pub fn get_feature_count(&self) -> (n: usize)
        ensures
            n == self.changelog_view().filter(|e: ChangeLogEntry| e.change_type == ChangeType::Feature).len(),
    {
        self.count_of(ChangeType::Feature)
    }

    /// Number of security-fix entries.
    pub fn get_security_fix_count(&self) -> (n: usize)
        ensures
            n == self.changelog_view().filter(|e: ChangeLogEntry| e.change_type == ChangeType::Security).len(),
    {
        self.count_of(ChangeType::Security)
    }

    fn count_of(&self, t: ChangeType) -> (n: usize)
        ensures
            n == self.changelog_view().filter(|e: ChangeLogEntry| e.change_type == t).len(),
    {
        let ghost pred = |e: ChangeLogEntry| e.change_type == t;
        let ghost l = self.changelog@;
        let mut n: usize = 0;
        let mut i: usize = 0;
        while i < self.changelog.len()
            invariant
                l == self.changelog@,
                i <= l.len(),
                pred == (|e: ChangeLogEntry| e.change_type == t),
                n == l.subrange(0, i as int).filter(pred).len(),
                n <= i,
            decreases l.len() - i,
        {
            proof {
                assert(l.subrange(0, i as int + 1) =~= l.subrange(0, i as int).push(l[i as int]));
                l.subrange(0, i as int).lemma_filter_push(l[i as int], pred);
            }
            if self.changelog[i].change_type == t {
                n = n + 1;
            }
            i = i + 1;
        }
        assert(l.subrange(0, l.len() as int) =~= l);
        n
    }
}

proof fn lemma_artifacts_size_prefix(s: Seq<ReleaseArtifact>, i: int)
    requires
        0 <= i <= s.len(),
    ensures
        artifacts_size(s.subrange(0, i)) <= artifacts_size(s),
    decreases s.len() - i,
{
    if i < s.len() {
        lemma_artifacts_size_prefix(s, i + 1);
        assert(s.subrange(0, i + 1).drop_last() =~= s.subrange(0, i));
    } else {
        assert(s.subrange(0, i) =~= s);
    }
}

} // verus!
