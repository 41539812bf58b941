//! What a directory scan hands the collectors: the regular files seen in a
//! directory, each with its name, its full path, and its raw content — or,
//! in place of the content, the report of a failed read.  The reading itself
//! is the surrounding program's job; the collectors judge only what was
//! found.

use vstd::prelude::*;

verus! {

/// One regular file found in a scanned directory.
#[derive(Debug)]
pub struct ScanFile {
    /// The file's own name within its directory.
    pub name: String,
    /// The file's full path, as error reports name it.
    pub path: String,
    /// The raw content, or the report of the failed read.
    pub content: Result<String, String>,
}

/// The view of a file's content: its characters, or the failure report's.
pub open spec fn content_of(f: ScanFile) -> Result<Seq<char>, Seq<char>> {
    match f.content {
        Ok(c) => Ok(c@),
        Err(m) => Err(m@),
    }
}

/// The position of the first file of a given name, or the scan's length when
/// absent.
pub open spec fn file_index(fs: Seq<ScanFile>, name: Seq<char>) -> nat
    decreases fs.len(),
{
    if fs.len() == 0 {
        0
    } else if fs[0].name@ == name {
        0
    } else {
        1 + file_index(fs.skip(1), name)
    }
}

/// Whether a file of the given name was seen.
pub open spec fn has_file(fs: Seq<ScanFile>, name: Seq<char>) -> bool {
    exists|i: int| 0 <= i < fs.len() && (#[trigger] fs[i]).name@ == name
}

pub proof fn lemma_file_index_at(fs: Seq<ScanFile>, name: Seq<char>, k: int)
    requires
        0 <= k <= fs.len(),
        forall|j: int| 0 <= j < k ==> (#[trigger] fs[j]).name@ != name,
        k == fs.len() || fs[k].name@ == name,
    ensures
        file_index(fs, name) == k,
        has_file(fs, name) <==> k < fs.len(),
    decreases k,
{
    if k == 0 {
        if fs.len() > 0 && fs[0].name@ == name {
        } else {
            assert(forall|i: int| 0 <= i < fs.len() ==> (#[trigger] fs[i]).name@ != name);
        }
    } else {
        lemma_file_index_at(fs.skip(1), name, k - 1);
        if k < fs.len() {
            assert(fs[k].name@ == name);
        } else {
            assert(forall|i: int| 0 <= i < fs.len() ==> (#[trigger] fs[i]).name@ != name) by {
                assert(forall|i: int| 1 <= i < fs.len() ==> fs.skip(1)[i - 1] == #[trigger] fs[i]);
            }
        }
    }
}

/// Finds the first file of a given name in a scan.
pub fn find_file<'a>(fs: &'a Vec<ScanFile>, name: &str) -> (r: Option<usize>)
    ensures
        match r {
            Some(i) => {
                &&& 0 <= i < fs@.len()
                &&& i == file_index(fs@, name@)
                &&& fs@[i as int].name@ == name@
                &&& has_file(fs@, name@)
            },
            None => !has_file(fs@, name@),
        },
{
    let mut k: usize = 0;
    while k < fs.len()
        invariant
            0 <= k <= fs@.len(),
            forall|j: int| 0 <= j < k ==> (#[trigger] fs@[j]).name@ != name@,
        decreases fs@.len() - k,
    {
        if crate::text::str_eq(fs[k].name.as_str(), name) {
            proof {
                lemma_file_index_at(fs@, name@, k as int);
            }
            return Some(k);
        }
        k = k + 1;
    }
    proof {
        lemma_file_index_at(fs@, name@, fs@.len() as int);
    }
    None
}

} // verus!
