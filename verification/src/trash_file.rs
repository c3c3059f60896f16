//! A trashed file: its `.trashinfo` entry and the trash can it lies in.
use crate::bytes::{append_bytes, copy_range};
use crate::datetime::LocalDateTime;
use crate::error::Error;
use crate::path::{
    extension, file_stem, is_relative, join, spec_extension, spec_file_name, spec_file_stem,
    spec_is_absolute, spec_join,
};
use crate::trash::{original_location, Trash};
use crate::trashinfo::{failure_of, read_trashinfo, reports_failure, DateFields, TrashInfo};
use std::rc::Rc;
use vstd::prelude::*;

verus! {

/// `trashinfo`
pub open spec fn trashinfo_ext() -> Seq<u8> {
    seq![116u8, 114u8, 97u8, 115u8, 104u8, 105u8, 110u8, 102u8, 111u8]
}

/// `.trashinfo`
pub open spec fn trashinfo_suffix() -> Seq<u8> {
    seq![46u8] + trashinfo_ext()
}

/// The error says that the `.trashinfo` file at `path` is invalid because
/// of `inner`.
pub open spec fn invalid_file(e: Error, path: Seq<u8>, inner: spec_fn(Error) -> bool) -> bool {
    e matches Error::InvalidTrashinfoFile(p, b) && p@ == path && inner(*b)
}

/// A trashed file
#[derive(Debug)]
pub struct TrashFile {
    trash: Rc<Trash>,
    trashinfo: TrashInfo,
    /// File name without the `.trashinfo` extension
    raw_filename: Vec<u8>,
}

impl TrashFile {
    /// The trash can the file lies in.
    pub closed spec fn spec_trash(&self) -> Rc<Trash> {
        self.trash
    }

    /// The `.trashinfo` entry of the file.
    pub closed spec fn spec_trashinfo(&self) -> TrashInfo {
        self.trashinfo
    }

    /// The name of the file in the trash can's files directory.
    pub closed spec fn spec_raw_filename(&self) -> Seq<u8> {
        self.raw_filename@
    }

    /// The location the file is restored to: a relative original path is
    /// taken relative to the trash can's mount root.
    pub open spec fn spec_original_path(&self) -> Seq<u8> {
        original_location(self.spec_trash().spec_mount_root(), self.spec_trashinfo().path@)
    }

    /// A trashed file made of its parts, without checking anything.
    pub fn new_unchecked(trash: Rc<Trash>, trashinfo: TrashInfo, raw_filename: Vec<u8>) -> (r:
        Self)
        ensures
            r.spec_trash() == trash,
            r.spec_trashinfo() == trashinfo,
            r.spec_raw_filename() == raw_filename@,
    {
        TrashFile { trash, trashinfo, raw_filename }
    }

    /// The trashed file that the `.trashinfo` file at `info_file_path`, with
    /// the text `info_file`, describes in `trash`. The file must end in
    /// `.trashinfo` and its text must read as a `.trashinfo` file; the name
    /// in the trash can is the file's name without the extension. Whether
    /// the file itself is in the trash can is for the caller to check.
    pub fn from_trashinfo_path(info_file: &[u8], info_file_path: &[u8], trash: Rc<Trash>) -> (r:
        Result<Self, Error>)
        ensures
            spec_extension(info_file_path@) != Some(trashinfo_ext()) ==> invalid_file(
                r->Err_0,
                info_file_path@,
                |e: Error| e is InvalidTrashinfoExt,
            ) && r is Err,
            spec_extension(info_file_path@) == Some(trashinfo_ext()) ==> (r is Ok <==> read_trashinfo(
                info_file@,
            ) is Ok),
            spec_extension(info_file_path@) == Some(trashinfo_ext()) ==> (failure_of(info_file@) matches Some(k) ==> (r is Err
                && invalid_file(r->Err_0, info_file_path@, |e: Error| reports_failure(e, k)))),
            r matches Ok(f) ==> {
                &&& read_trashinfo(info_file@) == Ok::<(Seq<u8>, DateFields), crate::trashinfo::TrashInfoFailure>(
                    (f.spec_trashinfo().path@, f.spec_trashinfo().deleted_at.fields()),
                )
                &&& spec_file_stem(info_file_path@) == Some(f.spec_raw_filename())
                &&& f.spec_trash() == trash
            },
    {
        let mut p: Vec<u8> = Vec::new();
        append_bytes(&mut p, info_file_path);
        let ext: Vec<u8> = vec![116u8, 114u8, 97u8, 115u8, 104u8, 105u8, 110u8, 102u8, 111u8];
        let ok_ext = match extension(info_file_path) {
            Some(e) => {
                assert(e@.subrange(0, e@.len() as int) =~= e@);
                crate::bytes::range_equals(e.as_slice(), 0, e.len(), ext.as_slice())
            },
            None => false,
        };
        if !ok_ext {
            return Err(Error::InvalidTrashinfoFile(p, Box::new(Error::InvalidTrashinfoExt)));
        }
        let trashinfo = match TrashInfo::parse(info_file) {
            Ok(t) => t,
            Err(e) => {
                return Err(Error::InvalidTrashinfoFile(p, Box::new(e)));
            },
        };
        let stem = match file_stem(info_file_path) {
            Some(s) => s,
            None => {
                let mut q: Vec<u8> = Vec::new();
                append_bytes(&mut q, info_file_path);
                return Err(
                    Error::InvalidTrashinfoFile(p, Box::new(Error::HasNoFileStem(q))),
                );
            },
        };
        Ok(TrashFile { trash, trashinfo, raw_filename: stem })
    }

    /// The location this entry will be moved to when restored
    pub fn original_path(&self) -> (r: Vec<u8>)
        ensures
            r@ == self.spec_original_path(),
    {
        let p = self.trashinfo.path.as_slice();
        if is_relative(p) {
            join(self.trash.mount_root(), p)
        } else {
            copy_range(p, 0, p.len())
        }
    }

    /// The time this item was moved into the trash. The specification asks
    /// for local time, which cannot be guaranteed.
    pub fn deleted_at(&self) -> (r: LocalDateTime)
        ensures
            r == self.spec_trashinfo().deleted_at,
    {
        self.trashinfo.deleted_at
    }

    /// Full path to this entrys entry in the files directory
    pub fn files_filepath(&self) -> (r: Vec<u8>)
        ensures
            r@ == spec_join(self.spec_trash().spec_files_dir(), self.spec_raw_filename()),
    {
        join(self.trash.files_dir(), self.raw_filename.as_slice())
    }

    /// Full path to this trash entrys .trashinfo file
    pub fn info_filepath(&self) -> (r: Vec<u8>)
        ensures
            r@ == spec_join(
                self.spec_trash().spec_info_dir(),
                self.spec_raw_filename() + trashinfo_suffix(),
            ),
    {
        let mut name: Vec<u8> = Vec::new();
        append_bytes(&mut name, self.raw_filename.as_slice());
        let suffix: Vec<u8> = vec![46u8, 116u8, 114u8, 97u8, 115u8, 104u8, 105u8, 110u8, 102u8, 111u8];
        append_bytes(&mut name, suffix.as_slice());
        join(self.trash.info_dir(), name.as_slice())
    }

    /// Returns a reference to the trash this item is in
    pub fn trash(&self) -> (r: &Trash)
        ensures
            *r == *self.spec_trash(),
    {
        &self.trash
    }

    /// The `.trashinfo` entry of this item.
    pub fn trashinfo(&self) -> (r: &TrashInfo)
        ensures
            *r == self.spec_trashinfo(),
    {
        &self.trashinfo
    }
}

} // verus!
