//! A package: its metadata and the modules loaded from it, with the errors of
//! independently loaded groups of modules collected rather than cut short.

use vstd::prelude::*;
use crate::modules::Module;

verus! {

/// Where a package keeps each kind of module, as path patterns under its directory.
#[derive(Debug)]
pub struct ModulePaths {
    pub bibles: Option<String>,
    pub dictionaries: Option<String>,
    pub xrefs: Option<String>,
}

/// The configuration file of a package.
#[derive(Debug)]
pub struct PackageConfig {
    pub name: String,
    pub authors: Vec<String>,
    pub license: String,
    pub module_paths: Option<ModulePaths>,
}

#[derive(Debug)]
pub struct Package {
    pub name: String,
    pub authors: Vec<String>,
    pub license: String,
    pub modules: Vec<Module>,
}

/// The modules of every group that loaded, in order.
pub open spec fn loaded_modules(groups: Seq<Result<Vec<Module>, String>>) -> Seq<Module>
    decreases groups.len(),
{
    if groups.len() == 0 {
        seq![]
    } else {
        loaded_modules(groups.drop_last()) + match groups.last() {
            Ok(m) => m@,
            Err(_) => seq![],
        }
    }
}

/// The error of every group that failed, in order.
pub open spec fn group_errors(groups: Seq<Result<Vec<Module>, String>>) -> Seq<String>
    decreases groups.len(),
{
    if groups.len() == 0 {
        seq![]
    } else {
        group_errors(groups.drop_last()) + match groups.last() {
            Ok(_) => seq![],
            Err(e) => seq![e],
        }
    }
}

proof fn lemma_no_errors(groups: Seq<Result<Vec<Module>, String>>)
    ensures
        group_errors(groups).len() == 0 <==> forall|i: int|
            0 <= i < groups.len() ==> #[trigger] groups[i] is Ok,
    decreases groups.len(),
{
    if groups.len() > 0 {
        lemma_no_errors(groups.drop_last());
        assert(forall|i: int| 0 <= i < groups.len() - 1 ==> groups.drop_last()[i] == groups[i]);
    }
}

impl Package {
    /// Joins the results of loading each group of modules: the modules of all groups
    /// when every group loaded, else the error of each group that failed.
    pub fn load_modules(groups: Vec<Result<Vec<Module>, String>>) -> (r: Result<
        Vec<Module>,
        Vec<String>,
    >)
        ensures
            r is Ok <==> forall|i: int| 0 <= i < groups@.len() ==> #[trigger] groups@[i] is Ok,
            r is Ok ==> r->Ok_0@ == loaded_modules(groups@),
            r is Err ==> r->Err_0@ == group_errors(groups@),
    {
        let ghost all = groups@;
        let mut groups = groups;
        let n = groups.len();
        let mut modules: Vec<Module> = Vec::new();
        let mut errors: Vec<String> = Vec::new();
        let mut k: usize = 0;
        while groups.len() > 0
            invariant
                k <= all.len(),
                all.len() == n,
                groups@ == all.subrange(k as int, all.len() as int),
                modules@ == loaded_modules(all.subrange(0, k as int)),
                errors@ == group_errors(all.subrange(0, k as int)),
            decreases groups@.len(),
        {
            let g = groups.remove(0);
            assert(all.subrange(0, k + 1).drop_last() =~= all.subrange(0, k as int));
            match g {
                Ok(mut found) => {
                    modules.append(&mut found);
                },
                Err(e) => {
                    errors.push(e);
                },
            }
            assert(modules@ =~= loaded_modules(all.subrange(0, k + 1)));
            assert(errors@ =~= group_errors(all.subrange(0, k + 1)));
            k = k + 1;
            assert(groups@ =~= all.subrange(k as int, all.len() as int));
        }
        assert(all.subrange(0, k as int) =~= all);
        proof {
            lemma_no_errors(all);
        }
        if errors.len() > 0 {
            Err(errors)
        } else {
            Ok(modules)
        }
    }

    /// A package from its configuration and its modules.
    pub fn from_config(config: PackageConfig, modules: Vec<Module>) -> (r: Package)
        ensures
            r.name == config.name,
            r.license == config.license,
            r.authors@ == config.authors@,
            r.modules@ == modules@,
    {
        Package {
            name: config.name,
            authors: config.authors,
            license: config.license,
            modules,
        }
    }
}

} // verus!
