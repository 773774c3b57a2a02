//! The directory kinds the locator recognizes, and the parameters of one
//! scan-and-wipe run.

use vstd::prelude::*;

verus! {

/// A directory kind to scan for. `Node` and `NodeModules` both select the
/// dependency cache of the Node toolchain; `Rust` and `Target` both select
/// the build cache of the Rust toolchain.
#[derive(Debug, Clone, Copy, PartialEq, Eq, Structural)]
pub enum FolderNameEnum {
    Node,
    NodeModules,
    Rust,
    Target,
}

/// The canonical kind: the two aliases of each kind collapse to one.
pub open spec fn spec_normalized(kind: FolderNameEnum) -> FolderNameEnum {
    match kind {
        FolderNameEnum::Node => FolderNameEnum::NodeModules,
        FolderNameEnum::NodeModules => FolderNameEnum::NodeModules,
        FolderNameEnum::Rust => FolderNameEnum::Target,
        FolderNameEnum::Target => FolderNameEnum::Target,
    }
}

/// Whether a directory of this kind is a genuine match only when it holds
/// the marker file: required for the build cache, not for the dependency
/// cache.
pub open spec fn spec_requires_marker(kind: FolderNameEnum) -> bool {
    spec_normalized(kind) is Target
}

/// The directory name that identifies this kind.
pub open spec fn spec_folder_name(kind: FolderNameEnum) -> Seq<char> {
    if spec_normalized(kind) is NodeModules {
        "node_modules"@
    } else {
        "target"@
    }
}

impl FolderNameEnum {
    /// The canonical kind, the executable form of [`spec_normalized`].
    pub fn normalized(&self) -> (r: FolderNameEnum)
        ensures
            r == spec_normalized(*self),
    {
        match self {
            FolderNameEnum::Node => FolderNameEnum::NodeModules,
            FolderNameEnum::NodeModules => FolderNameEnum::NodeModules,
            FolderNameEnum::Rust => FolderNameEnum::Target,
            FolderNameEnum::Target => FolderNameEnum::Target,
        }
    }

    /// Whether matches of this kind must hold the marker file.
    pub fn requires_marker(&self) -> (r: bool)
        ensures
            r == spec_requires_marker(*self),
    {
        match self.normalized() {
            FolderNameEnum::Target => true,
            _ => false,
        }
    }

    /// The directory name that identifies this kind.
    pub fn folder_name(&self) -> (r: String)
        ensures
            r@ == spec_folder_name(*self),
    {
        match self.normalized() {
            FolderNameEnum::Target => "target".to_owned(),
            _ => "node_modules".to_owned(),
        }
    }
}

/// The parameters of one run: whether to delete what is found, the root
/// path of the scan, and the kind to scan for.
#[derive(Debug, Clone, PartialEq)]
pub struct WipeParams {
    pub wipe: bool,
    pub path: String,
    pub folder_name: FolderNameEnum,
}

} // verus!
