//! The list of root directories that the crawler walks.

use vstd::prelude::*;
use crate::errors::{ConfigError, LpError};
use crate::project::{copy_texts, texts};

verus! {

/// The directories searched for projects.
#[derive(Debug)]
pub struct Config {
    pub project_dirs: Vec<String>,
}

impl Config {
    /// A configuration with no directory.
    pub fn new() -> (r: Config)
        ensures
            r.project_dirs@.len() == 0,
    {
        Config { project_dirs: Vec::new() }
    }

    /// A copy holding the same directories.
    pub fn clone(&self) -> (r: Config)
        ensures
            texts(r.project_dirs@) == texts(self.project_dirs@),
    {
        Config { project_dirs: copy_texts(&self.project_dirs) }
    }

    /// Adds a directory; a directory that is already listed is refused.
    pub fn add_dir(&mut self, path: String) -> (r: Result<(), LpError>)
        ensures
            texts(old(self).project_dirs@).contains(path@) ==> {
                &&& r matches Err(LpError::ConfigError(ConfigError::PathExists))
                &&& texts(final(self).project_dirs@) == texts(old(self).project_dirs@)
            },
            !texts(old(self).project_dirs@).contains(path@) ==> {
                &&& r is Ok
                &&& texts(final(self).project_dirs@) == texts(old(self).project_dirs@).push(path@)
            },
    {
        let ghost ds = texts(self.project_dirs@);
        let mut i: usize = 0;
        while i < self.project_dirs.len()
            invariant
                ds == texts(self.project_dirs@),
                i <= ds.len(),
                forall|j: int| 0 <= j < i ==> ds[j] != path@,
            decreases ds.len() - i,
        {
            if self.project_dirs[i] == path {
                assert(ds[i as int] == path@);
                return Err(LpError::ConfigError(ConfigError::PathExists));
            }
            i += 1;
        }
        self.project_dirs.push(path);
        assert(texts(self.project_dirs@) =~= ds.push(path@));
        Ok(())
    }

    /// Removes every occurrence of a directory.
    pub fn remove_dir(&mut self, path: String) -> (r: Result<(), LpError>)
        ensures
            r is Ok,
            texts(final(self).project_dirs@) == texts(old(self).project_dirs@).filter(
                |d: Seq<char>| d != path@,
            ),
    {
        let ghost ds = texts(self.project_dirs@);
        let mut kept: Vec<String> = Vec::new();
        let mut i: usize = 0;
        proof {
            reveal(Seq::filter);
            assert(ds.subrange(0, 0).filter(|d: Seq<char>| d != path@) =~= Seq::<Seq<char>>::empty());
        }
        while i < self.project_dirs.len()
            invariant
                ds == texts(self.project_dirs@),
                i <= ds.len(),
                texts(kept@) == ds.subrange(0, i as int).filter(|d: Seq<char>| d != path@),
            decreases ds.len() - i,
        {
            let ghost k0 = texts(kept@);
            assert(ds.subrange(0, i + 1).drop_last() =~= ds.subrange(0, i as int));
            reveal_with_fuel(Seq::filter, 1);
            if self.project_dirs[i] != path {
                kept.push(self.project_dirs[i].clone());
                assert(texts(kept@) =~= k0.push(ds[i as int]));
            }
            i += 1;
        }
        assert(ds.subrange(0, i as int) =~= ds);
        self.project_dirs = kept;
        Ok(())
    }
}

} // verus!
