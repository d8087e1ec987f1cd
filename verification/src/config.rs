//! Configuration paths for the application's persisted state.
//!
//! Deciding where the store lives is plain path arithmetic over the
//! profile identifier and an optional explicit root; only the fallback
//! root itself (the platform's data directory) comes from outside and is
//! handed in as a value.

use vstd::prelude::*;

verus! {

/// The path a store directory resolves to: the chosen root, then the
/// profile identifier, then `store`, separated by `/`.
pub open spec fn store_dir_path(root: Seq<char>, profile_id: Seq<char>) -> Seq<char> {
    root + seq!['/'] + profile_id + seq!['/', 's', 't', 'o', 'r', 'e']
}

/// Returns the directory for the application store: under `rad_home` if
/// one was given, else under the platform's data directory.
pub fn store_dir(profile_id: &str, rad_home: Option<&str>, data_dir: &str) -> (r: String)
    ensures
        r@ == store_dir_path(
            match rad_home {
                Some(h) => h@,
                None => data_dir@,
            },
            profile_id@,
        ),
{
    let root = match rad_home {
        Some(h) => h.to_owned(),
        None => data_dir.to_owned(),
    };
    let joined = root.concat("/").concat(profile_id).concat("/store");
    proof {
        reveal_strlit("/");
        reveal_strlit("/store");
        assert("/"@ =~= seq!['/']);
        assert("/store"@ =~= seq!['/', 's', 't', 'o', 'r', 'e']);
    }
    joined
}

} // verus!
