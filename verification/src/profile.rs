//! Build profiles and the compiler flags each one adds.
use vstd::prelude::*;

verus! {

/// The profile a build uses unless told otherwise.
pub const PROFILE: &'static str = "debug";

/// The views of a sequence of string slices.
pub open spec fn str_views(v: Seq<&str>) -> Seq<Seq<char>> {
    v.map_values(|s: &str| s@)
}

/// The flags of a profile: `release` and `debug` are the known ones.
pub open spec fn profile_flags(profile: Seq<char>) -> Option<Seq<Seq<char>>> {
    if profile == "release"@ {
        Some(seq!["-O3"@, "-DNDEBUG"@])
    } else if profile == "debug"@ {
        Some(seq!["-O0"@, "-g"@, "-Wall"@, "-Wextra"@, "-fno-omit-frame-pointer"@, "-DDCR_DEBUG"@])
    } else {
        None
    }
}

/// The compiler flags of `profile`, or `None` for an unknown profile.
pub fn flags(profile: &str) -> (r: Option<Vec<&'static str>>)
    ensures
        match r {
            Some(v) => profile_flags(profile@) == Some(str_views(v@)),
            None => profile_flags(profile@) is None,
        },
{
    if crate::utils::strings::str_eq(profile, "release") {
        let v = vec!["-O3", "-DNDEBUG"];
        assert(str_views(v@) =~= seq!["-O3"@, "-DNDEBUG"@]);
        Some(v)
    } else if crate::utils::strings::str_eq(profile, "debug") {
        let v = vec!["-O0", "-g", "-Wall", "-Wextra", "-fno-omit-frame-pointer", "-DDCR_DEBUG"];
        assert(str_views(v@) =~= seq!["-O0"@, "-g"@, "-Wall"@, "-Wextra"@, "-fno-omit-frame-pointer"@, "-DDCR_DEBUG"@]);
        Some(v)
    } else {
        None
    }
}

} // verus!
