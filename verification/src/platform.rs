//! Where a build puts its outputs: executables, EFI and ELF images, static and shared
//! libraries, under an explicit target directory or under `./target/<profile>`.
use vstd::prelude::*;
use crate::utils::paths::{under, under_dir};

verus! {

/// `dir/file` for an explicit directory, else `./target/<profile>/file`.
pub open spec fn output_path(profile: Seq<char>, file: Seq<char>, target_dir: Option<Seq<char>>) -> Seq<char> {
    match target_dir {
        Some(dir) => under_dir(dir, file),
        None => "./target/"@ + profile + "/"@ + file,
    }
}

/// The view of an optional string slice.
pub open spec fn opt_str_view(o: Option<&str>) -> Option<Seq<char>> {
    match o {
        Some(s) => Some(s@),
        None => None,
    }
}

fn output(profile: &str, file: &str, target_dir: Option<&str>) -> (r: String)
    ensures
        r@ == output_path(profile@, file@, opt_str_view(target_dir)),
{
    match target_dir {
        Some(dir) => under(dir, file),
        None => {
            let mut r = String::new();
            r.append("./target/");
            r.append(profile);
            r.append("/");
            r.append(file);
            r
        },
    }
}

fn decorated(prefix: &str, name: &str, suffix: &str) -> (r: String)
    ensures
        r@ == prefix@ + name@ + suffix@,
{
    let mut r = prefix.to_owned();
    r.append(name);
    r.append(suffix);
    r
}

/// The executable `name`.
pub fn bin_path(profile: &str, name: &str, target_dir: Option<&str>) -> (r: String)
    ensures
        r@ == output_path(profile@, name@, opt_str_view(target_dir)),
{
    output(profile, name, target_dir)
}

/// The ELF image `name`.
pub fn elf_path(profile: &str, name: &str, target_dir: Option<&str>) -> (r: String)
    ensures
        r@ == output_path(profile@, name@, opt_str_view(target_dir)),
{
    output(profile, name, target_dir)
}

/// The EFI image `name.efi`.
pub fn efi_path(profile: &str, name: &str, target_dir: Option<&str>) -> (r: String)
    ensures
        r@ == output_path(profile@, name@ + ".efi"@, opt_str_view(target_dir)),
{
    let file = decorated("", name, ".efi");
    proof { reveal_strlit(""); assert(""@ + name@ + ".efi"@ =~= name@ + ".efi"@); }
    output(profile, file.as_str(), target_dir)
}

/// The static library `libname.a`.
pub fn lib_path(profile: &str, name: &str, target_dir: Option<&str>) -> (r: String)
    ensures
        r@ == output_path(profile@, "lib"@ + name@ + ".a"@, opt_str_view(target_dir)),
{
    let file = decorated("lib", name, ".a");
    output(profile, file.as_str(), target_dir)
}

/// The shared library `libname.so`.
pub fn shared_lib_path(profile: &str, name: &str, target_dir: Option<&str>) -> (r: String)
    ensures
        r@ == output_path(profile@, "lib"@ + name@ + ".so"@, opt_str_view(target_dir)),
{
    let file = decorated("lib", name, ".so");
    output(profile, file.as_str(), target_dir)
}

} // verus!
