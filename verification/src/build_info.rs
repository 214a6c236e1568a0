//! Build metadata records: which sources and which build produced the
//! running binary. The values are gathered at build time by the surrounding
//! program; this module holds them and answers queries about them.

use vstd::prelude::*;

verus! {

/// Extra provenance recorded for debug builds.
#[derive(Debug)]
pub struct DebugBuildInfo {
    author_name: String,
    author_email: String,
    build_timestamp: String,
    build_machine: String,
    built_with_uncommitted_changes: String,
}

impl DebugBuildInfo {
    /// The commit author's name.
    pub closed spec fn spec_author_name(&self) -> Seq<char> {
        self.author_name@
    }

    /// Gathers the debug build fields.
    pub fn new(
        author_name: String,
        author_email: String,
        build_timestamp: String,
        build_machine: String,
        built_with_uncommitted_changes: String,
    ) -> (r: Self)
        ensures
            r.spec_author_name() == author_name@,
    {
        DebugBuildInfo {
            author_name,
            author_email,
            build_timestamp,
            build_machine,
            built_with_uncommitted_changes,
        }
    }
}

/// The provenance every build records.
#[derive(Debug)]
pub struct BaseBuildInfo {
    crate_name: String,
    revision: String,
    branch: String,
    internal_scm_revision: String,
    internal_scm_branch: String,
    openhcl_version: String,
}

impl BaseBuildInfo {
    /// The name of the crate that was built.
    pub closed spec fn spec_crate_name(&self) -> Seq<char> {
        self.crate_name@
    }

    /// The source control revision the build was made from.
    pub closed spec fn spec_revision(&self) -> Seq<char> {
        self.revision@
    }

    /// The source control branch the build was made from.
    pub closed spec fn spec_branch(&self) -> Seq<char> {
        self.branch@
    }

    /// Gathers the base build fields.
    pub fn new(
        crate_name: String,
        revision: String,
        branch: String,
        internal_scm_revision: String,
        internal_scm_branch: String,
        openhcl_version: String,
    ) -> (r: Self)
        ensures
            r.spec_crate_name() == crate_name@,
            r.spec_revision() == revision@,
            r.spec_branch() == branch@,
    {
        BaseBuildInfo {
            crate_name,
            revision,
            branch,
            internal_scm_revision,
            internal_scm_branch,
            openhcl_version,
        }
    }
}

/// The build information of the running binary, with or without the extra
/// debug provenance.
#[derive(Debug)]
pub enum BuildInfo {
    /// A build without debug provenance.
    WithoutDebugInfo(BaseBuildInfo),
    /// A build carrying debug provenance.
    WithDebugInfo {
        /// The base provenance.
        build: BaseBuildInfo,
        /// The extra debug provenance.
        debug_build_info: DebugBuildInfo,
    },
}

impl BuildInfo {
    /// The base provenance, whichever form the build information takes.
    pub open spec fn spec_base(&self) -> &BaseBuildInfo {
        match self {
            BuildInfo::WithoutDebugInfo(info) => info,
            BuildInfo::WithDebugInfo { build, .. } => build,
        }
    }

    /// The name of the crate that was built.
    pub fn crate_name(&self) -> (r: &String)
        ensures
            r@ == self.spec_base().spec_crate_name(),
    {
        match self {
            BuildInfo::WithDebugInfo { build, .. } => &build.crate_name,
            BuildInfo::WithoutDebugInfo(info) => &info.crate_name,
        }
    }

    /// The source control revision the build was made from.
    pub fn scm_revision(&self) -> (r: &String)
        ensures
            r@ == self.spec_base().spec_revision(),
    {
        match self {
            BuildInfo::WithDebugInfo { build, .. } => &build.revision,
            BuildInfo::WithoutDebugInfo(info) => &info.revision,
        }
    }

    /// The source control branch the build was made from.
    pub fn scm_branch(&self) -> (r: &String)
        ensures
            r@ == self.spec_base().spec_branch(),
    {
        match self {
            BuildInfo::WithDebugInfo { build, .. } => &build.branch,
            BuildInfo::WithoutDebugInfo(info) => &info.branch,
        }
    }
}

} // verus!
