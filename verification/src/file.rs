//! Static files: entries of the two-level files tree, stored under their
//! category directory's name and fully replaced on every rebuild.

use crate::error::{Error, ErrorKind};
use crate::store::{FileRow, FileRowV, Store, StoreView};
use crate::text::str_eq;
use vstd::prelude::*;

verus! {

/// A file as callers see it: its auto-assigned id, its file name, and the
/// logical path derived from its parent directory.
pub struct File {
    pub id: i64,
    pub name: String,
    pub path: String,
}

pub ghost struct FileV {
    pub id: i64,
    pub name: Seq<char>,
    pub path: Seq<char>,
}

impl View for File {
    type V = FileV;

    open spec fn view(&self) -> FileV {
        FileV { id: self.id, name: self.name@, path: self.path@ }
    }
}

impl File {
    /// Inserts a new file row unconditionally, assigning the next row id.
    /// Fails with a store error only when the table has exhausted its
    /// 63-bit id space.
    pub fn new(store: &mut Store, path: &str, name: &str, data: Vec<u8>) -> (r: Result<File, Error>)
        ensures
            r is Ok <==> old(store)@.files.len() < 0x7fff_ffff_ffff_fffe,
            r matches Ok(f) ==> {
                &&& f@.id == old(store)@.files.len() + 1
                &&& f@.name == name@
                &&& f@.path == path@
                &&& final(store)@ == (StoreView {
                    files: old(store)@.files.push(
                        FileRowV { id: f@.id, name: name@, path: path@, data: data@ },
                    ),
                    ..old(store)@
                })
            },
            r matches Err(e) ==> final(store)@ == old(store)@ && e.kind == ErrorKind::Store,
            old(store)@.wf() ==> final(store)@.wf(),
    {
        if store.files.len() as u64 >= 0x7fff_ffff_ffff_fffeu64 {
            return Err(Error::new(ErrorKind::Store, "file id space exhausted"));
        }
        let id = store.files.len() as i64 + 1;
        let row = FileRow {
            id,
            name: crate::text::copy_str(name),
            path: crate::text::copy_str(path),
            data,
        };
        store.files.push(row);
        let f = File { id, name: crate::text::copy_str(name), path: crate::text::copy_str(path) };
        proof {
            assert(final(store)@ =~~= (StoreView {
                files: old(store)@.files.push(
                    FileRowV { id: f@.id, name: name@, path: path@, data: data@ },
                ),
                ..old(store)@
            }));
        }
        Ok(f)
    }

    /// Looks a file up by its logical path and name; the first matching row
    /// wins.
    pub fn by_path_and_name(store: &Store, path: &str, name: &str) -> (r: Option<File>)
        ensures
            r is Some <==> exists|j: int|
                0 <= j < store@.files.len() && (#[trigger] store@.files[j]).path == path@
                    && store@.files[j].name == name@,
            r matches Some(f) ==> exists|j: int|
                0 <= j < store@.files.len() && (#[trigger] store@.files[j]).path == path@
                    && store@.files[j].name == name@ && f@.id == store@.files[j].id && f@.name
                    == name@ && f@.path == path@,
    {
        let nj = store.files.len();
        let mut j: usize = 0;
        while j < nj
            invariant
                nj == store.files.len(),
                0 <= j <= nj,
                forall|j2: int|
                    0 <= j2 < j ==> !((#[trigger] store@.files[j2]).path == path@
                        && store@.files[j2].name == name@),
            decreases nj - j,
        {
            proof {
                assert(store@.files[j as int] == store.files@[j as int]@);
            }
            if str_eq(store.files[j].path.as_str(), path) && str_eq(
                store.files[j].name.as_str(),
                name,
            ) {
                return Some(
                    File {
                        id: store.files[j].id,
                        name: crate::text::copy_str(name),
                        path: crate::text::copy_str(path),
                    },
                );
            }
            j = j + 1;
        }
        None
    }

    /// The raw bytes of this file, if its row is present.
    pub fn get_data(&self, store: &Store) -> (r: Option<Vec<u8>>)
        ensures
            r is Some <==> exists|j: int|
                0 <= j < store@.files.len() && (#[trigger] store@.files[j]).id == self.id,
            r matches Some(v) ==> exists|j: int|
                0 <= j < store@.files.len() && (#[trigger] store@.files[j]).id == self.id && v@
                    == store@.files[j].data,
    {
        let nj = store.files.len();
        let mut j: usize = 0;
        while j < nj
            invariant
                nj == store.files.len(),
                0 <= j <= nj,
                forall|j2: int| 0 <= j2 < j ==> (#[trigger] store@.files[j2]).id != self.id,
            decreases nj - j,
        {
            proof {
                assert(store@.files[j as int] == store.files@[j as int]@);
            }
            if store.files[j].id == self.id {
                return Some(crate::text::clone_bytes(&store.files[j].data));
            }
            j = j + 1;
        }
        None
    }

    /// Clears the file table.
    pub fn delete_all(store: &mut Store)
        ensures
            final(store)@ == (StoreView { files: Seq::<FileRowV>::empty(), ..old(store)@ }),
            old(store)@.wf() ==> final(store)@.wf(),
    {
        store.files = Vec::new();
        proof {
            assert(final(store)@ =~~= (StoreView {
                files: Seq::<FileRowV>::empty(),
                ..old(store)@
            }));
        }
    }
}

} // verus!
