//! `dcr new`: the checks on its argument and the configuration of the new project.
use vstd::prelude::*;
use crate::project::config::{
    edit_outcome, is_default_doc, lemma_default_doc, lemma_default_not_blocked, lemma_default_renamed, lemma_package_name_path, typed_ok, Config,
};
use crate::project::value::set_effect;
use crate::project::rules::{blank, config_valid, package_name_ok};
use crate::project::value::{TomlData, TomlValue};
use crate::utils::strings::{str_eq, views};

verus! {

/// Why `dcr new` stops before it creates anything, or fails to configure the project.
#[derive(PartialEq, Eq, Structural, Clone, Copy)]
pub enum NewError {
    NoName,
    ExtraArgs,
    Exists,
    CreateToml,
    WriteToml,
}

/// The project's name: the one argument, which must not name an entry of the current
/// directory (`items`).
pub fn check_new_args(args: &Vec<String>, items: &Vec<String>) -> (r: Result<String, NewError>)
    ensures
        match r {
            Ok(name) => args@.len() == 1 && name@ == args@[0]@ && !views(items@).contains(name@),
            Err(e) => (e == NewError::NoName && args@.len() == 0) || (e == NewError::ExtraArgs && args@.len() > 1) || (
            e == NewError::Exists && args@.len() == 1 && views(items@).contains(args@[0]@)),
        },
{
    if args.len() == 0 {
        return Err(NewError::NoName);
    }
    if args.len() > 1 {
        return Err(NewError::ExtraArgs);
    }
    let name = args[0].as_str();
    let mut i: usize = 0;
    while i < items.len()
        invariant
            i <= items@.len(),
            args@.len() == 1,
            name@ == args@[0]@,
            forall|k: int| 0 <= k < i ==> items@[k]@ != name@,
        decreases items@.len() - i,
    {
        if str_eq(items[i].as_str(), name) {
            assert(views(items@)[i as int] == name@);
            return Err(NewError::Exists);
        }
        i = i + 1;
    }
    assert(!views(items@).contains(name@)) by {
        if views(items@).contains(name@) {
            let k = choose|k: int| 0 <= k < views(items@).len() && views(items@)[k] == name@;
            assert(items@[k]@ != name@);
        }
    }
    Ok(name.to_owned())
}

/// The configuration of a new project at `path`: the default document (named after the
/// directory `dcr new` runs in, `cwd_name`), with `package.name` then set to the project's
/// name. It succeeds exactly when both names are valid package names; `CreateToml` when the
/// directory's name is not, `WriteToml` when the project's name is refused by the edit.
pub fn new_project_config(path: &str, cwd_name: &str, project_name: &str) -> (r: Result<Config, NewError>)
    ensures
        r is Ok <==> !blank(cwd_name@) && package_name_ok(cwd_name@) && !blank(project_name@) && package_name_ok(
            project_name@,
        ),
        match r {
            Ok(c) => {
                &&& c.file() == path@
                &&& is_default_doc(c.doc(), project_name@)
                &&& exists|d: TomlData| is_default_doc(d, cwd_name@) && edit_outcome(
                    d,
                    "package.name"@,
                    TomlData::Str(project_name@),
                    c.doc(),
                    Ok(()),
                )
            },
            Err(e) => if !blank(cwd_name@) && package_name_ok(cwd_name@) {
                e == NewError::WriteToml
            } else {
                e == NewError::CreateToml
            },
        },
{
    let mut config = match Config::new(path, None, cwd_name) {
        Ok(c) => c,
        Err(_) => return Err(NewError::CreateToml),
    };
    let ghost d = config.doc();
    let ghost n = TomlData::Str(project_name@);
    proof { lemma_package_name_path(); }
    match config.edit("package.name", TomlValue::from_str(project_name.to_owned())) {
        Ok(()) => {
            proof {
                lemma_default_renamed(d, cwd_name@, project_name@, config.doc()->Table_0);
                assert(TomlData::Table(config.doc()->Table_0) == config.doc());
                lemma_default_doc(config.doc(), project_name@);
            }
            Ok(config)
        },
        Err(_) => {
            proof {
                let p = seq!["package"@, "name"@];
                lemma_default_not_blocked(d, cwd_name@);
                let nd = choose|nd: Seq<(Seq<char>, TomlData)>| #[trigger] set_effect(d->Table_0, p, n, nd) && !(typed_ok(
                    TomlData::Table(nd),
                ) && config_valid(TomlData::Table(nd)));
                lemma_default_renamed(d, cwd_name@, project_name@, nd);
                lemma_default_doc(TomlData::Table(nd), project_name@);
            }
            Err(NewError::WriteToml)
        },
    }
}

} // verus!
