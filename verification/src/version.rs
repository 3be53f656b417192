//! What the catalogue of a database records of a table file.

use crate::ikey::InternalKey;
use crate::table::TableError;
use vstd::prelude::*;

verus! {

/// A table file in the catalogue: its number, its smallest and largest keys,
/// and its size in bytes.
#[derive(Debug)]
pub struct FileMetaData {
    pub file_num: u64,
    pub smallest: InternalKey,
    pub largest: InternalKey,
    pub file_size: u64,
}

/// Gathers the fields of a `FileMetaData` one by one.
#[derive(Debug)]
pub struct FileMetaDataBuilder {
    pub file_num: Option<u64>,
    pub smallest: Option<InternalKey>,
    pub largest: Option<InternalKey>,
    pub file_size: Option<u64>,
}

impl FileMetaDataBuilder {
    /// Every field was given.
    pub open spec fn complete(&self) -> bool {
        &&& self.file_num is Some
        &&& self.smallest is Some
        &&& self.largest is Some
        &&& self.file_size is Some
    }

    /// A builder that was given no field.
    pub fn new() -> (r: Self)
        ensures
            r.file_num is None,
            r.smallest is None,
            r.largest is None,
            r.file_size is None,
    {
        FileMetaDataBuilder { file_num: None, smallest: None, largest: None, file_size: None }
    }

    /// Gives the file's number.
    pub fn file_num(&mut self, num: u64)
        ensures
            *final(self) == (FileMetaDataBuilder { file_num: Some(num), ..*old(self) }),
    {
        self.file_num = Some(num);
    }

    /// Gives the smallest key.
    pub fn smallest(&mut self, key: InternalKey)
        ensures
            *final(self) == (FileMetaDataBuilder { smallest: Some(key), ..*old(self) }),
    {
        self.smallest = Some(key);
    }

    /// Gives the largest key.
    pub fn largest(&mut self, key: InternalKey)
        ensures
            *final(self) == (FileMetaDataBuilder { largest: Some(key), ..*old(self) }),
    {
        self.largest = Some(key);
    }

    /// Gives the file's size.
    pub fn file_size(&mut self, size: u64)
        ensures
            *final(self) == (FileMetaDataBuilder { file_size: Some(size), ..*old(self) }),
    {
        self.file_size = Some(size);
    }

    /// The metadata, where every field was given.
    pub fn build(self) -> (r: Result<FileMetaData, TableError>)
        ensures
            self.complete() ==> r == Ok::<FileMetaData, TableError>(
                FileMetaData {
                    file_num: self.file_num->0,
                    smallest: self.smallest->0,
                    largest: self.largest->0,
                    file_size: self.file_size->0,
                },
            ),
            !self.complete() ==> r == Err::<FileMetaData, TableError>(
                TableError::IncompleteMetaData,
            ),
    {
        match (self.file_num, self.smallest, self.largest, self.file_size) {
            (Some(file_num), Some(smallest), Some(largest), Some(file_size)) => Ok(
                FileMetaData { file_num, smallest, largest, file_size },
            ),
            _ => Err(TableError::IncompleteMetaData),
        }
    }
}

} // verus!
