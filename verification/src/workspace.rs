//! Locating the member manifests of a Cargo workspace: the workspace's own
//! manifest text names its members, and each member's manifest lives at
//! `<root>/<member>/Cargo.toml`.
//!
//! Parsing the manifest text is the TOML library's work, behind a trusted
//! wrapper; building the member manifest paths from the parsed member list
//! is verified here.  Reading the files is left to the caller.

use vstd::prelude::*;

verus! {

/// Why no member manifest paths could be computed.
#[derive(Debug, Clone, PartialEq, Eq)]
pub enum ManifestError {
    /// The text is not a well-formed workspace manifest.
    InvalidManifest,
    /// The manifest has no `[workspace]` section.
    NoWorkspace,
}

/// What a manifest text denotes: `None` when it is not a well-formed
/// manifest; `Some(None)` when it has no `[workspace]` section;
/// `Some(Some(members))` with the `members` list of its `[workspace]`
/// section otherwise.  What the TOML parser accepts and extracts depends
/// on the text alone.
pub uninterp spec fn workspace_members_of(t: Seq<char>) -> Option<Option<Seq<Seq<char>>>>;

/// Relies on `toml::from_str::<cargo_manifest::Manifest>`: it succeeds
/// exactly on well-formed manifest texts, and the parsed manifest's
/// `workspace.members` field holds the member names written in the text.
#[verifier::external_body]
fn parse_workspace_members(text: &str) -> (r: Result<Vec<String>, ManifestError>)
    ensures
        match workspace_members_of(text@) {
            Option::None => r == Result::<Vec<String>, ManifestError>::Err(
                ManifestError::InvalidManifest,
            ),
            Option::Some(Option::None) => r == Result::<Vec<String>, ManifestError>::Err(
                ManifestError::NoWorkspace,
            ),
            Option::Some(Option::Some(ms)) => r matches Result::Ok(v) && v.deep_view() == ms,
        },
{
    match toml::from_str::<cargo_manifest::Manifest>(text) {
        Result::Err(_) => Result::Err(ManifestError::InvalidManifest),
        Result::Ok(m) => match m.workspace {
            Option::None => Result::Err(ManifestError::NoWorkspace),
            Option::Some(w) => Result::Ok(w.members),
        },
    }
}

/// The path of one member's manifest under the workspace root.
pub open spec fn member_manifest_path(root: Seq<char>, member: Seq<char>) -> Seq<char> {
    root + "/"@ + member + "/Cargo.toml"@
}

/// Computes the paths of all member manifests of the workspace whose root
/// directory is `workspace_root` and whose own manifest reads
/// `manifest_text`: one path per `members` entry, in order.  Fails with
/// [`ManifestError::InvalidManifest`] exactly when the text is not a
/// well-formed manifest, and with [`ManifestError::NoWorkspace`] exactly
/// when it has no `[workspace]` section.
#[verifier::loop_isolation(false)]
pub fn member_manifest_paths(workspace_root: &str, manifest_text: &str) -> (r: Result<
    Vec<String>,
    ManifestError,
>)
    ensures
        match workspace_members_of(manifest_text@) {
            Option::None => r == Result::<Vec<String>, ManifestError>::Err(
                ManifestError::InvalidManifest,
            ),
            Option::Some(Option::None) => r == Result::<Vec<String>, ManifestError>::Err(
                ManifestError::NoWorkspace,
            ),
            Option::Some(Option::Some(ms)) => r matches Result::Ok(ps) && ps.deep_view().len()
                == ms.len() && (forall|i: int|
                0 <= i < ms.len() ==> #[trigger] ps.deep_view()[i] == member_manifest_path(
                    workspace_root@,
                    ms[i],
                )),
        },
{
    let members = match parse_workspace_members(manifest_text) {
        Result::Ok(members) => members,
        Result::Err(e) => {
            return Result::Err(e);
        },
    };
    let ghost ms = members.deep_view();
    let mut paths: Vec<String> = Vec::new();
    let mut rest = members;
    let n0 = rest.len();
    let mut i: usize = 0;
    while rest.len() > 0
        invariant
            i + rest@.len() == n0 as int,
            i + rest@.len() == ms.len(),
            rest.deep_view() =~= ms.skip(i as int),
            paths.deep_view().len() == i,
            forall|j: int|
                0 <= j < i ==> #[trigger] paths.deep_view()[j] == member_manifest_path(
                    workspace_root@,
                    ms[j],
                ),
        decreases rest@.len(),
    {
        let ghost rdeep0 = rest.deep_view();
        let ghost rshallow0 = rest@;
        let member = rest.remove(0);
        proof {
            assert(member.deep_view() == rdeep0[0]);
            assert forall|j: int| 0 <= j < rest.deep_view().len() implies rest.deep_view()[j]
                == ms.skip(i as int + 1)[j] by {
                assert(rest@[j] == rshallow0[j + 1]);
                assert(rdeep0[j + 1] == ms.skip(i as int)[j + 1]);
            }
            assert(rest.deep_view() =~= ms.skip(i as int + 1));
        }
        let mut p = workspace_root.to_owned();
        p.append("/");
        p.append(member.as_str());
        p.append("/Cargo.toml");
        proof {
            assert(p@ == member_manifest_path(workspace_root@, ms[i as int]));
        }
        let ghost paths0 = paths.deep_view();
        paths.push(p);
        proof {
            assert(paths.deep_view() =~= paths0.push(member_manifest_path(
                workspace_root@,
                ms[i as int],
            )));
        }
        i += 1;
    }
    Result::Ok(paths)
}

} // verus!
