//! Which directories the scan for `.org` files enters, and which files it keeps.

use vstd::prelude::*;
use crate::text::{chars_of, str_eq};

verus! {

/// How many directory levels below the starting one the scan descends.
pub const MAX_DEPTH: usize = 5;

/// Directories the scan never enters.
pub open spec fn skipped_dir_names() -> Seq<Seq<char>> {
    seq![
        "node_modules"@,
        "target"@,
        "build"@,
        "dist"@,
        ".git"@,
        ".svn"@,
        "__pycache__"@,
        "venv"@,
        "env"@,
        "Library"@,
        "Applications"@,
        "System"@,
    ]
}

/// Whether the scan enters a directory with this name (when it has one that
/// is valid Unicode) at this depth: not deeper than `MAX_DEPTH`, not a hidden
/// directory, and not one of the skipped names.
pub open spec fn enters_dir(name: Option<Seq<char>>, depth: nat) -> bool {
    depth <= MAX_DEPTH && match name {
        None => true,
        Some(n) => !(n.len() > 0 && n[0] == '.') && !skipped_dir_names().contains(n),
    }
}

/// Whether the scan enters a directory with this name at this depth.
pub fn should_scan_dir(name: Option<&str>, depth: usize) -> (r: bool)
    ensures
        r == enters_dir(
            match name {
                Some(n) => Some(n@),
                None => None,
            },
            depth as nat,
        ),
{
    if depth > MAX_DEPTH {
        return false;
    }
    match name {
        None => true,
        Some(n) => {
            let cs = chars_of(n);
            if cs.len() > 0 && cs[0] == '.' {
                return false;
            }
            let skip = [
                "node_modules",
                "target",
                "build",
                "dist",
                ".git",
                ".svn",
                "__pycache__",
                "venv",
                "env",
                "Library",
                "Applications",
                "System",
            ];
            let ghost names = skipped_dir_names();
            assert(names.len() == 12);
            assert(forall|k: int| 0 <= k < 12 ==> #[trigger] names[k] == skip@[k]@);
            let mut k: usize = 0;
            while k < 12
                invariant
                    k <= 12,
                    names == skipped_dir_names(),
                    name == Some(n),
                    depth <= MAX_DEPTH,
                    names.len() == 12,
                    forall|j: int| 0 <= j < 12 ==> #[trigger] names[j] == skip@[j]@,
                    forall|j: int| 0 <= j < k ==> names[j] != n@,
                decreases 12 - k,
            {
                if str_eq(skip[k], n) {
                    assert(names[k as int] == n@);
                    assert(names.contains(n@));
                    return false;
                }
                k = k + 1;
            }
            assert(!names.contains(n@));
            true
        },
    }
}

/// Whether a file with this extension is an org file.
pub fn is_org_extension(extension: Option<&str>) -> (r: bool)
    ensures
        r == (extension matches Some(e) && e@ == "org"@),
{
    match extension {
        Some(e) => str_eq(e, "org"),
        None => false,
    }
}

} // verus!
