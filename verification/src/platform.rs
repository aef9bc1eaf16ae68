//! The toolchain selection and its derived artifacts: the ordered
//! bin-directory list, the rebuilt search-path string, and the effective
//! companion-tool version.
//!
//! An [`Image`] holds the pinned runtime (node) version and the optional
//! companion (npm, yarn) versions, each tagged with its provenance. Its
//! methods are read-only queries. The collaborators this core consults —
//! the on-disk layout service, the purge-target query, the process
//! environment, and the bundled-default lookup — hand their answers in as
//! plain values, so every decision made here is verified for every answer
//! they could give.

use vstd::prelude::*;
use vstd::std_specs::cmp::{PartialEqSpec, PartialEqSpecImpl};

use crate::search_path::{
    all_joinable, entry_views, join_entries, purge_entries, spec_join, spec_purge, spec_split,
    split_entries, SEP,
};
use crate::version::{spec_version_bytes, Version};

verus! {

/// Where a resolved version selection came from.
#[derive(Clone, Copy, PartialEq, Eq, Structural, Debug)]
pub enum Source {
    /// The user's default toolchain.
    Default,
    /// A project's pinned toolchain.
    Project,
    /// An explicit command-line override.
    CommandLine,
}

/// A resolved value together with the origin of its selection. The origin
/// is metadata only: it is carried through derivations unchanged and never
/// influences a computed value, and two instances compare equal whenever
/// their values do, whatever their origins.
#[derive(Clone, Copy, Debug)]
pub struct Sourced<T> {
    pub value: T,
    pub source: Source,
}

impl<T: PartialEq + PartialEqSpec> PartialEq for Sourced<T> {
    fn eq(&self, other: &Sourced<T>) -> (r: bool) {
        self.value == other.value
    }
}

impl<T: PartialEq + PartialEqSpec> PartialEqSpecImpl for Sourced<T> {
    open spec fn obeys_eq_spec() -> bool {
        T::obeys_eq_spec()
    }

    open spec fn eq_spec(&self, other: &Sourced<T>) -> bool {
        self.value.eq_spec(&other.value)
    }
}

/// The tools a selection can pin.
#[derive(Clone, Copy, PartialEq, Eq, Structural, Debug)]
pub enum ToolKind {
    Node,
    Npm,
    Yarn,
}

/// Whether the search-path derivation purges manager-owned entries
/// (standard) or keeps the environment value untouched (global-package
/// builds). A packaging-time configuration, supplied by the caller.
#[derive(Clone, Copy, PartialEq, Eq, Structural, Debug)]
pub enum Mode {
    Standard,
    GlobalPackage,
}

/// The layout service's answers for one selection: the bin directory of
/// each pinned tool's image, as bytes. `None` means the layout could not
/// resolve that tool's install root.
#[derive(Clone, Debug)]
pub struct LayoutDirs {
    pub npm_bin: Option<Vec<u8>>,
    pub yarn_bin: Option<Vec<u8>>,
    pub node_bin: Option<Vec<u8>>,
}

/// Why a derivation failed. Each variant names the value it failed on.
#[derive(Clone, PartialEq, Debug)]
pub enum Error {
    /// The layout service had no bin directory for this tool.
    LayoutUnavailable { tool: ToolKind },
    /// This directory entry holds the separator and cannot be encoded
    /// into a search-path string.
    PathBuild { entry: Vec<u8> },
    /// No npm version is pinned and the bundled default for this runtime
    /// version could not be looked up.
    DefaultVersionLookup { runtime: Version },
}

/// One layout lookup: a tool and the rendered version to look it up under.
#[derive(Clone, PartialEq, Eq, Debug)]
pub struct ToolVersion {
    pub tool: ToolKind,
    pub version: Vec<u8>,
}

/// A platform image: one required runtime version and the optional
/// companion versions, each with its provenance.
#[derive(Clone, Copy, Debug)]
pub struct Image {
    /// The pinned version of Node.
    pub node: Sourced<Version>,
    /// The custom version of npm, if any. `None` means the npm bundled
    /// with the pinned Node version is used.
    pub npm: Option<Sourced<Version>>,
    /// The pinned version of Yarn, if any.
    pub yarn: Option<Sourced<Version>>,
}

/// The views of a lookup list: each tool with its rendered version.
pub open spec fn lookup_views(ls: Seq<ToolVersion>) -> Seq<(ToolKind, Seq<u8>)> {
    ls.map_values(|l: ToolVersion| (l.tool, l.version@))
}

/// The ordered layout lookups a selection requires: any explicit npm
/// first, then yarn, then node last.
pub open spec fn spec_bin_lookups(img: Image) -> Seq<(ToolKind, Seq<u8>)> {
    (if img.npm is Some {
        seq![(ToolKind::Npm, spec_version_bytes(img.npm->0.value))]
    } else {
        seq![]
    }) + (if img.yarn is Some {
        seq![(ToolKind::Yarn, spec_version_bytes(img.yarn->0.value))]
    } else {
        seq![]
    }) + seq![(ToolKind::Node, spec_version_bytes(img.node.value))]
}

/// The first pinned tool whose bin directory the layout could not give,
/// checked in the order the directories are consumed; `None` when every
/// needed directory is present.
pub open spec fn spec_missing_tool(img: Image, layout: LayoutDirs) -> Option<ToolKind> {
    if img.npm is Some && layout.npm_bin is None {
        Some(ToolKind::Npm)
    } else if img.yarn is Some && layout.yarn_bin is None {
        Some(ToolKind::Yarn)
    } else if layout.node_bin is None {
        Some(ToolKind::Node)
    } else {
        None
    }
}

/// The derived bin-directory list: any explicit npm directory first, then
/// yarn's, then node's — node always last, so that a more specific pin
/// shadows a tool of the same name that ships beside the node binaries.
pub open spec fn spec_bins(img: Image, layout: LayoutDirs) -> Seq<Seq<u8>>
    recommends
        spec_missing_tool(img, layout) is None,
{
    (if img.npm is Some {
        seq![layout.npm_bin->0@]
    } else {
        seq![]
    }) + (if img.yarn is Some {
        seq![layout.yarn_bin->0@]
    } else {
        seq![]
    }) + seq![layout.node_bin->0@]
}

/// The environment value to work on: the raw value, or empty when the
/// variable is absent.
pub open spec fn spec_env_bytes(env: Option<Vec<u8>>) -> Seq<u8> {
    match env {
        Some(v) => v@,
        None => seq![],
    }
}

/// The original entries that survive into the result: in standard mode
/// the split environment value with the purge-target entries removed, in
/// global-package mode the split value untouched.
pub open spec fn spec_kept_entries(env: Seq<u8>, purge: Seq<Seq<u8>>, mode: Mode) -> Seq<Seq<u8>> {
    if mode is Standard {
        spec_purge(spec_split(env), purge)
    } else {
        spec_split(env)
    }
}

/// Every entry of the rebuilt search path, in order: the derived bin
/// directories, then the kept original entries.
pub open spec fn spec_path_entries(
    img: Image,
    layout: LayoutDirs,
    env: Seq<u8>,
    purge: Seq<Seq<u8>>,
    mode: Mode,
) -> Seq<Seq<u8>>
    recommends
        spec_missing_tool(img, layout) is None,
{
    spec_bins(img, layout) + spec_kept_entries(env, purge, mode)
}

impl Image {
    /// The layout lookups this selection requires, in the fixed order:
    /// any explicit npm pin, then any yarn pin, then node. Each version is
    /// rendered as text, the identifier the layout service is keyed by.
    pub fn bin_lookups(&self) -> (r: Vec<ToolVersion>)
        ensures
            lookup_views(r@) == spec_bin_lookups(*self),
    {
        let mut r: Vec<ToolVersion> = Vec::new();
        if let Some(npm) = &self.npm {
            r.push(ToolVersion { tool: ToolKind::Npm, version: npm.value.to_bytes() });
        }
        if let Some(yarn) = &self.yarn {
            r.push(ToolVersion { tool: ToolKind::Yarn, version: yarn.value.to_bytes() });
        }
        r.push(ToolVersion { tool: ToolKind::Node, version: self.node.value.to_bytes() });
        proof {
            assert(lookup_views(r@) =~= spec_bin_lookups(*self));
        }
        r
    }

    /// The ordered bin-directory list for this selection, built from the
    /// layout service's answers: any explicit npm directory, then yarn's,
    /// then node's last. Fails with [`Error::LayoutUnavailable`] exactly
    /// when a needed directory is absent.
    pub fn bins(&self, layout: &LayoutDirs) -> (r: Result<Vec<Vec<u8>>, Error>)
        ensures
            spec_missing_tool(*self, *layout) matches Some(t) ==> r == Err::<Vec<Vec<u8>>, Error>(
                (Error::LayoutUnavailable { tool: t }),
            ),
            spec_missing_tool(*self, *layout) is None ==> r is Ok && entry_views(r->Ok_0@)
                == spec_bins(*self, *layout),
    {
        let mut out: Vec<Vec<u8>> = Vec::new();
        if self.npm.is_some() {
            match &layout.npm_bin {
                Some(d) => {
                    let e = d.clone();
                    proof {
                        assert(e@ =~= layout.npm_bin->0@);
                    }
                    out.push(e);
                },
                None => {
                    return Err(Error::LayoutUnavailable { tool: ToolKind::Npm });
                },
            }
        }
        if self.yarn.is_some() {
            match &layout.yarn_bin {
                Some(d) => {
                    let e = d.clone();
                    proof {
                        assert(e@ =~= layout.yarn_bin->0@);
                    }
                    out.push(e);
                },
                None => {
                    return Err(Error::LayoutUnavailable { tool: ToolKind::Yarn });
                },
            }
        }
        match &layout.node_bin {
            Some(d) => {
                let e = d.clone();
                proof {
                    assert(e@ =~= layout.node_bin->0@);
                }
                out.push(e);
            },
            None => {
                return Err(Error::LayoutUnavailable { tool: ToolKind::Node });
            },
        }
        proof {
            assert(entry_views(out@) =~= spec_bins(*self, *layout));
        }
        Ok(out)
    }

    /// Rebuilds a search-path string that finds this selection's tools
    /// first. The caller hands in the current environment value (`None`
    /// when the variable is absent), the purge-target directories, the
    /// layout service's answers, and the packaging mode; the result is the
    /// derived bin directories, then — purged in standard mode, untouched
    /// in global-package mode — the original entries, rejoined. Fails with
    /// [`Error::LayoutUnavailable`] when a needed directory is absent and
    /// with [`Error::PathBuild`] when an entry cannot be encoded.
    pub fn path(
        &self,
        env_path: &Option<Vec<u8>>,
        purge: &Vec<Vec<u8>>,
        layout: &LayoutDirs,
        mode: Mode,
    ) -> (r: Result<Vec<u8>, Error>)
        ensures
            spec_missing_tool(*self, *layout) matches Some(t) ==> r == Err::<Vec<u8>, Error>(
                (Error::LayoutUnavailable { tool: t }),
            ),
            spec_missing_tool(*self, *layout) is None ==> {
                let entries = spec_path_entries(
                    *self,
                    *layout,
                    spec_env_bytes(*env_path),
                    entry_views(purge@),
                    mode,
                );
                &&& r is Ok <==> all_joinable(entries)
                &&& r is Ok ==> r->Ok_0@ == spec_join(entries)
                &&& r matches Err(e) ==> e matches Error::PathBuild { entry } && exists|i: int|
                    0 <= i < entries.len() && entry@ == #[trigger] entries[i]
                        && entries[i].contains(SEP) && (forall|j: int|
                        0 <= j < i ==> !(#[trigger] entries[j]).contains(SEP))
            },
    {
        let bins = match self.bins(layout) {
            Ok(b) => b,
            Err(e) => {
                return Err(e);
            },
        };
        let raw: Vec<u8> = match env_path {
            Some(v) => {
                let c = v.clone();
                proof {
                    assert(c@ =~= v@);
                }
                c
            },
            None => Vec::new(),
        };
        let old_entries = split_entries(&raw);
        let kept = if mode == Mode::Standard {
            purge_entries(old_entries, purge)
        } else {
            old_entries
        };
        let mut all = bins;
        let mut rest = kept;
        all.append(&mut rest);
        proof {
            assert(entry_views(all@) =~= spec_path_entries(
                *self,
                *layout,
                spec_env_bytes(*env_path),
                entry_views(purge@),
                mode,
            ));
        }
        match join_entries(&all) {
            Ok(j) => Ok(j),
            Err(e) => Err(Error::PathBuild { entry: e }),
        }
    }

    /// The effective npm version: the explicit pin when one exists —
    /// value and provenance both unchanged — and otherwise the version
    /// bundled with the pinned node, tagged with the runtime's own
    /// provenance, since no independent npm pin was made. The caller
    /// hands in the bundled-default lookup's answer for this node version
    /// (`None` when that lookup failed); it is consulted only when no
    /// explicit pin exists.
    pub fn resolve_npm(&self, bundled: &Option<Version>) -> (r: Result<Sourced<Version>, Error>)
        ensures
            self.npm is Some ==> r == Ok::<Sourced<Version>, Error>(self.npm->0),
            self.npm is None && bundled is Some ==> r == Ok::<Sourced<Version>, Error>(
                (Sourced { value: bundled->0, source: self.node.source }),
            ),
            self.npm is None && bundled is None ==> r == Err::<Sourced<Version>, Error>(
                (Error::DefaultVersionLookup { runtime: self.node.value }),
            ),
    {
        match &self.npm {
            Some(npm) => Ok(*npm),
            None => match bundled {
                Some(v) => Ok(Sourced { value: *v, source: self.node.source }),
                None => Err(Error::DefaultVersionLookup { runtime: self.node.value }),
            },
        }
    }
}

/// With only the runtime set, the derived directory list is exactly one
/// entry: the runtime's own bin directory.
pub proof fn lemma_bins_runtime_only(img: Image, layout: LayoutDirs)
    requires
        img.npm is None,
        img.yarn is None,
        layout.node_bin is Some,
    ensures
        spec_missing_tool(img, layout) is None,
        spec_bins(img, layout) == seq![layout.node_bin->0@],
{
    assert(spec_bins(img, layout) =~= seq![layout.node_bin->0@]);
}

/// With both companions set, the derived directory list is exactly three
/// entries in order: npm's directory, yarn's, then node's.
pub proof fn lemma_bins_both_companions(img: Image, layout: LayoutDirs)
    requires
        img.npm is Some,
        img.yarn is Some,
        layout.npm_bin is Some,
        layout.yarn_bin is Some,
        layout.node_bin is Some,
    ensures
        spec_missing_tool(img, layout) is None,
        spec_bins(img, layout) == seq![layout.npm_bin->0@, layout.yarn_bin->0@, layout.node_bin->0@],
{
    assert(spec_bins(img, layout) =~= seq![
        layout.npm_bin->0@,
        layout.yarn_bin->0@,
        layout.node_bin->0@,
    ]);
}

/// The path derivation is a function of the environment value and the
/// selection alone: two successful derivations over unchanged inputs
/// return the identical string.
pub proof fn lemma_path_deterministic(
    r1: Seq<u8>,
    r2: Seq<u8>,
    img: Image,
    layout: LayoutDirs,
    env: Seq<u8>,
    purge: Seq<Seq<u8>>,
    mode: Mode,
)
    requires
        r1 == spec_join(spec_path_entries(img, layout, env, purge, mode)),
        r2 == spec_join(spec_path_entries(img, layout, env, purge, mode)),
    ensures
        r1 == r2,
{
}

/// In standard mode, every purge-target directory that stood in the
/// original environment value is absent from the kept entries, every
/// other original entry survives, and the survivors stand in their
/// original relative order: a strictly increasing choice of positions in
/// the split environment value yields exactly the kept entries.
pub proof fn lemma_standard_mode_purges(env: Seq<u8>, purge: Seq<Seq<u8>>)
    ensures
        forall|d: Seq<u8>| purge.contains(d) ==> !spec_kept_entries(
            env,
            purge,
            Mode::Standard,
        ).contains(d),
        forall|i: int|
            0 <= i < spec_split(env).len() && !purge.contains(#[trigger] spec_split(env)[i])
                ==> spec_kept_entries(env, purge, Mode::Standard).contains(spec_split(env)[i]),
        exists|m: Seq<int>|
            crate::search_path::is_order_embedding(
                m,
                spec_split(env),
                spec_kept_entries(env, purge, Mode::Standard),
            ),
{
    crate::search_path::lemma_purge_removes(spec_split(env), purge);
    crate::search_path::lemma_purge_keeps(spec_split(env), purge);
    crate::search_path::lemma_purge_keeps_order(spec_split(env), purge);
    let m = choose|m: Seq<int>|
        crate::search_path::is_order_embedding(
            m,
            spec_split(env),
            spec_purge(spec_split(env), purge),
        );
    assert(crate::search_path::is_order_embedding(
        m,
        spec_split(env),
        spec_kept_entries(env, purge, Mode::Standard),
    ));
}

/// The environment value can never make the rejoin fail: every entry it
/// contributes came out of a split and is separator-free, so the path
/// derivation encodes successfully exactly when every derived bin
/// directory does.
pub proof fn lemma_path_fails_only_on_bin_dirs(
    img: Image,
    layout: LayoutDirs,
    env: Seq<u8>,
    purge: Seq<Seq<u8>>,
    mode: Mode,
)
    requires
        spec_missing_tool(img, layout) is None,
    ensures
        all_joinable(spec_path_entries(img, layout, env, purge, mode)) <==> all_joinable(
            spec_bins(img, layout),
        ),
{
    let bins = spec_bins(img, layout);
    let kept = spec_kept_entries(env, purge, mode);
    let entries = spec_path_entries(img, layout, env, purge, mode);
    crate::search_path::lemma_split_joinable(env);
    if mode is Standard {
        crate::search_path::lemma_purge_subset(spec_split(env), purge);
    }
    assert forall|i: int| 0 <= i < kept.len() implies !(#[trigger] kept[i]).contains(SEP) by {
        if mode is Standard {
            assert(spec_split(env).contains(kept[i]));
            let j = choose|j: int|
                0 <= j < spec_split(env).len() && spec_split(env)[j] == kept[i];
            assert(!spec_split(env)[j].contains(SEP));
        } else {
            assert(kept[i] == spec_split(env)[i]);
        }
    }
    if all_joinable(bins) {
        assert forall|i: int| 0 <= i < entries.len() implies !(#[trigger] entries[i]).contains(
            SEP,
        ) by {
            if i < bins.len() {
                assert(entries[i] == bins[i]);
            } else {
                assert(entries[i] == kept[i - bins.len()]);
            }
        }
    }
    if all_joinable(entries) {
        assert forall|i: int| 0 <= i < bins.len() implies !(#[trigger] bins[i]).contains(SEP) by {
            assert(bins[i] == entries[i]);
        }
    }
}

/// In global-package mode nothing is purged: the final entry list is the
/// derived bin directories followed by every original entry, each at its
/// original relative position.
pub proof fn lemma_global_mode_keeps_all(
    img: Image,
    layout: LayoutDirs,
    env: Seq<u8>,
    purge: Seq<Seq<u8>>,
)
    ensures
        spec_kept_entries(env, purge, Mode::GlobalPackage) == spec_split(env),
        spec_path_entries(img, layout, env, purge, Mode::GlobalPackage) == spec_bins(img, layout)
            + spec_split(env),
        forall|i: int|
            0 <= i < spec_split(env).len() ==> spec_path_entries(
                img,
                layout,
                env,
                purge,
                Mode::GlobalPackage,
            )[spec_bins(img, layout).len() + i] == #[trigger] spec_split(env)[i],
{
}

} // verus!
