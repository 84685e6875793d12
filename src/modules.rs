//! The three kinds of module a package holds.

pub mod bible;
pub mod dict;
pub mod xrefs;

use vstd::prelude::*;
use crate::modules::bible::BibleModule;
use crate::modules::dict::DictModule;
use crate::modules::xrefs::XRefModule;

verus! {

/// A loaded module of a package.
#[derive(Debug)]
pub enum Module {
    Bible(BibleModule),
    Dictionary(DictModule),
    XRef(XRefModule),
}

impl Module {
    pub fn is_bible(&self) -> (r: bool)
        ensures
            r == (self is Bible),
    {
        match self {
            Module::Bible(_) => true,
            _ => false,
        }
    }

    pub fn is_dict(&self) -> (r: bool)
        ensures
            r == (self is Dictionary),
    {
        match self {
            Module::Dictionary(_) => true,
            _ => false,
        }
    }

    pub fn is_xrefs(&self) -> (r: bool)
        ensures
            r == (self is XRef),
    {
        match self {
            Module::XRef(_) => true,
            _ => false,
        }
    }
}

} // verus!
