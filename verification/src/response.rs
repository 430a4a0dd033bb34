//! Backed up files, and the responses that report them.

use vstd::prelude::*;

use crate::keys::{bound_view, copy_bytes, Key};
use crate::range::BackupRange;
use crate::task::Request;

verus! {

/// A file that a backup has written.
#[derive(Debug, PartialEq, Eq)]
pub struct File {
    pub name: String,
    pub sha256: Vec<u8>,
    pub start_key: Vec<u8>,
    pub end_key: Vec<u8>,
    pub start_version: u64,
    pub end_version: u64,
    pub crc64xor: u64,
    pub total_kvs: u64,
    pub total_bytes: u64,
}

/// The model of a [`File`].
#[verifier::ext_equal]
pub struct FileView {
    pub name: Seq<char>,
    pub sha256: Seq<u8>,
    pub start_key: Seq<u8>,
    pub end_key: Seq<u8>,
    pub start_version: u64,
    pub end_version: u64,
    pub crc64xor: u64,
    pub total_kvs: u64,
    pub total_bytes: u64,
}

impl View for File {
    type V = FileView;

    open spec fn view(&self) -> FileView {
        FileView {
            name: self.name@,
            sha256: self.sha256@,
            start_key: self.start_key@,
            end_key: self.end_key@,
            start_version: self.start_version,
            end_version: self.end_version,
            crc64xor: self.crc64xor,
            total_kvs: self.total_kvs,
            total_bytes: self.total_bytes,
        }
    }
}

/// The models of a list of files.
pub open spec fn file_views(files: Seq<File>) -> Seq<FileView> {
    files.map_values(|file: File| file@)
}

/// What is reported of one range: its files, or why there are none.
#[derive(Debug, PartialEq, Eq)]
pub struct BackupResponse<E> {
    pub error: Option<E>,
    pub start_key: Vec<u8>,
    pub end_key: Vec<u8>,
    pub files: Vec<File>,
}

/// A bound of a range as it is reported: nothing if it is missing, as it is stored
/// for raw values, and otherwise in its decoded form.
pub open spec fn reported_key(
    bound: Option<Seq<u8>>,
    is_raw_kv: bool,
    decoded: Seq<u8>,
) -> Seq<u8> {
    match bound {
        None => Seq::empty(),
        Some(key) => if is_raw_kv {
            key
        } else {
            decoded
        },
    }
}

/// A bound of a range as it is reported. `decoded` is the decoded form of the bound,
/// which counts only where there is a bound and values are not raw.
pub fn report_key(bound: &Option<Key>, is_raw_kv: bool, decoded: Vec<u8>) -> (key: Vec<u8>)
    ensures
        key@ == reported_key(bound_view(*bound), is_raw_kv, decoded@),
{
    match bound {
        None => Vec::new(),
        Some(key) => {
            if is_raw_kv {
                copy_bytes(key.as_encoded().as_slice())
            } else {
                decoded
            }
        },
    }
}

impl<B> Request<B> {
    /// A file of the range `[start_key, end_key)` with its key range and versions
    /// filled in.
    pub open spec fn stamped(self, file: FileView, start_key: Seq<u8>, end_key: Seq<u8>) -> FileView {
        FileView {
            start_key,
            end_key,
            start_version: self.start_ts,
            end_version: self.end_ts,
            ..file
        }
    }

    /// Reports what came of one range. `decoded_start` and `decoded_end` are the
    /// decoded bounds of the range.
    pub fn respond<E>(
        &self,
        range: &BackupRange,
        decoded_start: Vec<u8>,
        decoded_end: Vec<u8>,
        result: Result<Vec<File>, E>,
    ) -> (response: BackupResponse<E>)
        ensures
            response.start_key@ == reported_key(
                range@.start_key,
                self.is_raw_kv,
                decoded_start@,
            ),
            response.end_key@ == reported_key(range@.end_key, self.is_raw_kv, decoded_end@),
            match result {
                Ok(files) => response.error is None && file_views(response.files@) == file_views(
                    files@,
                ).map_values(
                    |file: FileView|
                        self.stamped(file, response.start_key@, response.end_key@),
                ),
                Err(e) => response.error == Some(e) && response.files@.len() == 0,
            },
            result matches Ok(files) ==> response.files@.len() == files@.len(),
            forall|i: int|
                0 <= i < response.files@.len() ==> {
                    let file = #[trigger] response.files@[i];
                    &&& file.start_version == self.start_ts
                    &&& file.end_version == self.end_ts
                    &&& file.start_key@ == response.start_key@
                    &&& file.end_key@ == response.end_key@
                },
            forall|i: int|
                0 <= i < response.files@.len() ==> {
                    let file = #[trigger] response.files@[i];
                    let given = result->Ok_0@[i];
                    &&& file.name@ == given.name@
                    &&& file.sha256@ == given.sha256@
                    &&& file.crc64xor == given.crc64xor
                    &&& file.total_kvs == given.total_kvs
                    &&& file.total_bytes == given.total_bytes
                },
    {
        let start_key = report_key(&range.start_key, self.is_raw_kv, decoded_start);
        let end_key = report_key(&range.end_key, self.is_raw_kv, decoded_end);
        match result {
            Err(e) => BackupResponse { error: Some(e), start_key, end_key, files: Vec::new() },
            Ok(mut files) => {
                let ghost given = files@;
                let mut i: usize = 0;
                while i < files.len()
                    invariant
                        i <= files.len(),
                        files@.len() == given.len(),
                        forall|j: int| i <= j < given.len() ==> #[trigger] files@[j] == given[j],
                        forall|j: int|
                            0 <= j < i ==> (#[trigger] files@[j])@ == self.stamped(
                                given[j]@,
                                start_key@,
                                end_key@,
                            ),
                    decreases files.len() - i,
                {
                    // Fill key range and ts.
                    files[i].start_key = copy_bytes(start_key.as_slice());
                    files[i].end_key = copy_bytes(end_key.as_slice());
                    files[i].start_version = self.start_ts;
                    files[i].end_version = self.end_ts;
                    i = i + 1;
                }
                assert(file_views(files@) =~= file_views(given).map_values(
                    |file: FileView| self.stamped(file, start_key@, end_key@),
                ));
                assert forall|j: int| 0 <= j < files@.len() implies (#[trigger] files@[j])@
                    == self.stamped(given[j]@, start_key@, end_key@) by {}
                BackupResponse { error: None, start_key, end_key, files }
            },
        }
    }
}

} // verus!
