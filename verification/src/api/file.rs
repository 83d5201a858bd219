use vstd::prelude::*;

use crate::identity::Identity;

verus! {

/// A file as callers see it: the record without its accessors and its hash.
#[derive(Debug)]
pub struct FEFile {
    pub id: u64,
    pub chunk_ids: Vec<u64>,
    pub number_of_chunks: u64,
    pub file_name: String,
    pub file_type: String,
    pub owner: Identity,
    pub metadata: String,
    pub url: String,
    pub created_at: u64,
    pub updated_at: u64,
}

/// What an `FEFile` holds.
#[verifier::ext_equal]
pub struct FEFileView {
    pub id: u64,
    pub chunk_ids: Seq<u64>,
    pub number_of_chunks: u64,
    pub file_name: Seq<char>,
    pub file_type: Seq<char>,
    pub owner: Seq<u8>,
    pub metadata: Seq<char>,
    pub url: Seq<char>,
    pub created_at: u64,
    pub updated_at: u64,
}

impl View for FEFile {
    type V = FEFileView;

    open spec fn view(&self) -> FEFileView {
        FEFileView {
            id: self.id,
            chunk_ids: self.chunk_ids@,
            number_of_chunks: self.number_of_chunks,
            file_name: self.file_name@,
            file_type: self.file_type@,
            owner: self.owner@,
            metadata: self.metadata@,
            url: self.url@,
            created_at: self.created_at,
            updated_at: self.updated_at,
        }
    }
}

} // verus!
