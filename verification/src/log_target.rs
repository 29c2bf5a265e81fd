//! Where log lines go: standard output, or a file named by a path.
//!
//! A path is cut just after its last `/`: the part up to and including it
//! is the directory, the rest is the file name, so that the directory
//! joined with the file name is the path itself. A path with no `/` names
//! a file in the current directory `./`.

use vstd::prelude::*;

verus! {

/// The index of the last `/` in `s`, if there is one.
pub open spec fn last_slash(s: Seq<char>) -> Option<int>
    decreases s.len(),
{
    if s.len() == 0 {
        None
    } else if s.last() == '/' {
        Some(s.len() - 1)
    } else {
        last_slash(s.drop_last())
    }
}

/// The directory and the file name that `path` is cut into: the directory
/// keeps the last `/`, the file name is what follows it.
pub open spec fn file_location(path: Seq<char>) -> (Seq<char>, Seq<char>) {
    match last_slash(path) {
        Some(i) => (path.take(i + 1), path.skip(i + 1)),
        None => ("./"@, path),
    }
}

/// Where log lines are written.
#[derive(Clone, Debug, PartialEq, Eq)]
pub enum LogDestination {
    /// The standard output of the process.
    Stdout,
    /// A file: `file_name` names it, inside `directory`.
    File { directory: String, file_name: String },
}

/// `last_slash` finds the last `/`, and finds none only where there is none.
pub proof fn lemma_last_slash(s: Seq<char>)
    ensures
        last_slash(s) matches Some(i) ==> {
            &&& 0 <= i < s.len()
            &&& s[i] == '/'
            &&& forall|j: int| i < j < s.len() ==> s[j] != '/'
        },
        last_slash(s) is None ==> forall|j: int| 0 <= j < s.len() ==> s[j] != '/',
    decreases s.len(),
{
    if s.len() > 0 {
        let init = s.drop_last();
        lemma_last_slash(init);
        assert(forall|j: int| 0 <= j < init.len() ==> init[j] == s[j]);
    }
}

/// A path with a `/` is cut into a directory that ends in `/` and a file
/// name without any `/`, which together give the path back; a path without
/// one is a file name in the directory `./`.
pub proof fn lemma_file_location(path: Seq<char>)
    ensures
        path.contains('/') ==> {
            let (directory, file_name) = file_location(path);
            &&& directory + file_name == path
            &&& directory.len() >= 1
            &&& directory.last() == '/'
            &&& !file_name.contains('/')
        },
        !path.contains('/') ==> file_location(path) == ("./"@, path),
{
    lemma_last_slash(path);
    if path.contains('/') {
        let k = choose|k: int| 0 <= k < path.len() && path[k] == '/';
        assert(path[k] == '/');
        let i = last_slash(path)->0;
        assert(path.take(i + 1) + path.skip(i + 1) =~= path);
        assert(path.take(i + 1).last() == path[i]);
        let file_name = path.skip(i + 1);
        assert forall|j: int| 0 <= j < file_name.len() implies file_name[j] != '/' by {
            assert(file_name[j] == path[i + 1 + j]);
        }
    } else {
        if let Some(i) = last_slash(path) {
            assert(path[i] == '/');
        }
    }
}

/// The directory and the file name that `path` is cut into, just after its
/// last `/`; `("./", path)` where `path` holds no `/`.
pub fn split_log_file_path(path: &str) -> (r: (String, String))
    ensures
        (r.0@, r.1@) == file_location(path@),
{
    let n = path.unicode_len();
    let mut i = n;
    proof {
        assert(path@.take(n as int) =~= path@);
    }
    while i > 0 && path.get_char(i - 1) != '/'
        invariant
            n == path@.len(),
            i <= n,
            last_slash(path@) == last_slash(path@.take(i as int)),
        decreases i,
    {
        proof {
            assert(path@.take(i as int).drop_last() =~= path@.take(i - 1));
        }
        i = i - 1;
    }
    if i == 0 {
        proof {
            assert(path@.take(0) =~= Seq::<char>::empty());
        }
        (String::from_str("./"), String::from_str(path))
    } else {
        let slash = i - 1;
        proof {
            assert(path@.take(i as int).last() == path@[slash as int]);
        }
        let directory = path.substring_char(0, i);
        let file_name = path.substring_char(i, n);
        proof {
            assert(path@.subrange(0, i as int) =~= path@.take(i as int));
            assert(path@.subrange(i as int, n as int) =~= path@.skip(i as int));
        }
        (String::from_str(directory), String::from_str(file_name))
    }
}

/// Where log lines go, given the value of the variable that names the log
/// file: standard output when it is unset, else the file that it names.
pub fn log_destination(log_file: Option<&str>) -> (r: LogDestination)
    ensures
        log_file is None ==> r is Stdout,
        log_file matches Some(path) ==> r matches LogDestination::File { directory, file_name }
            && (directory@, file_name@) == file_location(path@),
{
    match log_file {
        Some(path) => {
            let (directory, file_name) = split_log_file_path(path);
            LogDestination::File { directory, file_name }
        },
        None => LogDestination::Stdout,
    }
}

} // verus!
