//! The project's repository handle: a path, and the repository once it has
//! been created or opened.
use vstd::prelude::*;
use std::path::PathBuf;
use crate::error::Error;

verus! {

/// A project directory and, once initialized or opened, its repository.
pub struct GitBridge<R> {
    path: PathBuf,
    repo: Option<R>,
}

/// The message of the error for using a repository that was not opened.
pub open spec fn not_initialized_message() -> Seq<char> {
    "Repository not initialized"@
}

impl<R> GitBridge<R> {
    /// The project directory.
    pub closed spec fn dir(self) -> PathBuf {
        self.path
    }

    /// The repository, if one has been created or opened.
    pub closed spec fn repository(self) -> Option<R> {
        self.repo
    }

    /// A bridge for the project directory, with no repository yet.
    pub fn new(project_path: PathBuf) -> (r: Result<GitBridge<R>, Error>)
        ensures
            r matches Ok(b) && b.dir() == project_path && b.repository() is None,
    {
        Ok(GitBridge { path: project_path, repo: None })
    }

    /// The project directory.
    pub fn path(&self) -> (p: &PathBuf)
        ensures
            *p == self.dir(),
    {
        &self.path
    }

    /// Use the given repository from now on.
    pub fn attach(&mut self, repo: R)
        ensures
            final(self).repository() == Some(repo),
            final(self).dir() == old(self).dir(),
    {
        self.repo = Some(repo);
    }

    /// The repository, or an error when none has been created or opened.
    pub fn repo(&self) -> (r: Result<&R, Error>)
        ensures
            self.repository() matches Some(x) ==> (r matches Ok(y) && *y == x),
            self.repository() is None ==> (r matches Err(Error::GitError(m)) && m@
                == not_initialized_message()),
    {
        match &self.repo {
            Some(r) => Ok(r),
            None => Err(Error::GitError("Repository not initialized".to_owned())),
        }
    }
}

} // verus!
