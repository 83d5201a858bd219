use sha3::{Digest, Sha3_256};
use vstd::prelude::*;
use vstd::slice::slice_to_vec;
use vstd::string::StringExecFns;

use crate::api::file::{FEFile, FEFileView};
use crate::codec::identity_views;
use crate::error::Error;
use crate::identity::Identity;
use crate::text::str_equal;

verus! {

/// The kinds of asset the store accepts.
#[derive(Clone, Copy, Debug, PartialEq, Eq, Structural)]
pub enum FileType {
    PNG,
    JPEG,
    GIF,
    MP4,
    MOV,
    WEBP,
}

/// The kind that a MIME type names, if it names one.
pub open spec fn file_type_of_mime(mime: Seq<char>) -> Option<FileType> {
    if mime == "image/png"@ {
        Some(FileType::PNG)
    } else if mime == "image/jpeg"@ {
        Some(FileType::JPEG)
    } else if mime == "image/gif"@ {
        Some(FileType::GIF)
    } else if mime == "video/mp4"@ {
        Some(FileType::MP4)
    } else if mime == "video/quicktime"@ {
        Some(FileType::MOV)
    } else if mime == "image/webp"@ {
        Some(FileType::WEBP)
    } else {
        None
    }
}

/// The kind that a byte stands for in a record, if it stands for one.
pub open spec fn file_type_of_code(code: u8) -> Option<FileType> {
    if code == 0 {
        Some(FileType::PNG)
    } else if code == 1 {
        Some(FileType::JPEG)
    } else if code == 2 {
        Some(FileType::GIF)
    } else if code == 3 {
        Some(FileType::MP4)
    } else if code == 4 {
        Some(FileType::MOV)
    } else if code == 5 {
        Some(FileType::WEBP)
    } else {
        None
    }
}

impl FileType {
    /// The MIME type of each kind.
    pub open spec fn mime(self) -> Seq<char> {
        match self {
            FileType::PNG => "image/png"@,
            FileType::JPEG => "image/jpeg"@,
            FileType::GIF => "image/gif"@,
            FileType::MP4 => "video/mp4"@,
            FileType::MOV => "video/quicktime"@,
            FileType::WEBP => "image/webp"@,
        }
    }

    /// The first segment of the path under which a file of this kind is
    /// served.
    pub open spec fn slug(self) -> Seq<char> {
        match self {
            FileType::MP4 | FileType::MOV => "video"@,
            _ => "image"@,
        }
    }

    /// The byte that stands for the kind in a record.
    pub open spec fn code(self) -> u8 {
        match self {
            FileType::PNG => 0,
            FileType::JPEG => 1,
            FileType::GIF => 2,
            FileType::MP4 => 3,
            FileType::MOV => 4,
            FileType::WEBP => 5,
        }
    }

    /// The MIME type of the kind.
    pub fn as_str(&self) -> (s: &'static str)
        ensures
            s@ == self.mime(),
    {
        match self {
            FileType::PNG => "image/png",
            FileType::JPEG => "image/jpeg",
            FileType::GIF => "image/gif",
            FileType::MP4 => "video/mp4",
            FileType::MOV => "video/quicktime",
            FileType::WEBP => "image/webp",
        }
    }

    /// The kind that a MIME type names; any other text is refused.
    pub fn convert_to_file_type(file_type: &str) -> (r: Result<FileType, Error>)
        ensures
            match file_type_of_mime(file_type@) {
                Some(t) => r == Ok::<FileType, Error>(t),
                None => r == Err::<FileType, Error>(Error::UnsupportedType),
            },
    {
        if str_equal(file_type, "image/png") {
            Ok(FileType::PNG)
        } else if str_equal(file_type, "image/jpeg") {
            Ok(FileType::JPEG)
        } else if str_equal(file_type, "image/gif") {
            Ok(FileType::GIF)
        } else if str_equal(file_type, "video/mp4") {
            Ok(FileType::MP4)
        } else if str_equal(file_type, "video/quicktime") {
            Ok(FileType::MOV)
        } else if str_equal(file_type, "image/webp") {
            Ok(FileType::WEBP)
        } else {
            Err(Error::UnsupportedType)
        }
    }

    /// The first segment of the path under which a file of the kind is
    /// served.
    pub fn url_slug(&self) -> (s: &'static str)
        ensures
            s@ == self.slug(),
    {
        match self {
            FileType::PNG => "image",
            FileType::JPEG => "image",
            FileType::GIF => "image",
            FileType::MP4 => "video",
            FileType::MOV => "video",
            FileType::WEBP => "image",
        }
    }

    /// The byte that stands for the kind in a record.
    pub(crate) fn to_code(&self) -> (c: u8)
        ensures
            c == self.code(),
    {
        match self {
            FileType::PNG => 0,
            FileType::JPEG => 1,
            FileType::GIF => 2,
            FileType::MP4 => 3,
            FileType::MOV => 4,
            FileType::WEBP => 5,
        }
    }

    /// The kind that a byte stands for in a record, if it stands for one.
    pub(crate) fn from_code(code: u8) -> (r: Option<FileType>)
        ensures
            r == file_type_of_code(code),
    {
        if code == 0 {
            Some(FileType::PNG)
        } else if code == 1 {
            Some(FileType::JPEG)
        } else if code == 2 {
            Some(FileType::GIF)
        } else if code == 3 {
            Some(FileType::MP4)
        } else if code == 4 {
            Some(FileType::MOV)
        } else if code == 5 {
            Some(FileType::WEBP)
        } else {
            None
        }
    }
}

/// Each MIME type names the kind it belongs to, and each kind's byte stands
/// for it.
pub proof fn lemma_file_type_names(t: FileType)
    ensures
        file_type_of_mime(t.mime()) == Some(t),
        file_type_of_code(t.code()) == Some(t),
{
    reveal_strlit("image/png");
    reveal_strlit("image/jpeg");
    reveal_strlit("image/gif");
    reveal_strlit("video/mp4");
    reveal_strlit("video/quicktime");
    reveal_strlit("image/webp");
    assert("image/png"@[6] == 'p');
    assert("image/jpeg"@[6] == 'j');
    assert("image/gif"@[6] == 'g');
    assert("video/mp4"@[6] == 'm');
    assert("video/quicktime"@[6] == 'q');
    assert("image/webp"@[6] == 'w');
}

/// The digest of some content: 32 bytes.
pub type Hash = [u8; 32];

/// The SHA3-256 digest of `bytes`.
pub uninterp spec fn sha3_256(bytes: Seq<u8>) -> Seq<u8>;

/// `Sha3_256` of the crate `sha3`, fed `value` in one piece: `new`, `update`,
/// `finalize`. The digest has 32 bytes and depends on `value` alone.
#[verifier::external_body]
fn sha3_256_digest(value: &[u8]) -> (hash: [u8; 32])
    ensures
        hash@ == sha3_256(value@),
{
    let mut hasher = Sha3_256::new();
    hasher.update(value);
    hasher.finalize().into()
}

/// The digest by which content is told apart.
pub fn hash_bytes(value: &[u8]) -> (hash: Hash)
    ensures
        hash@ == sha3_256(value@),
{
    sha3_256_digest(value)
}

/// A stored object: what is known of it, and the chunks that hold its bytes.
#[derive(Debug)]
pub struct File {
    pub id: u64,
    pub url: String,
    pub chunk_ids: Vec<u64>,
    pub number_of_chunks: u64,
    pub file_name: String,
    pub file_type: FileType,
    pub owner: Identity,
    pub metadata: String,
    pub deleted_at: Option<u64>,
    pub created_at: u64,
    pub updated_at: u64,
    pub accessors: Vec<Identity>,
    pub hash: Hash,
}

/// What a `File` holds.
#[verifier::ext_equal]
pub struct FileView {
    pub id: u64,
    pub url: Seq<char>,
    pub chunk_ids: Seq<u64>,
    pub number_of_chunks: u64,
    pub file_name: Seq<char>,
    pub file_type: FileType,
    pub owner: Seq<u8>,
    pub metadata: Seq<char>,
    pub deleted_at: Option<u64>,
    pub created_at: u64,
    pub updated_at: u64,
    pub accessors: Seq<Seq<u8>>,
    pub hash: Seq<u8>,
}

impl View for File {
    type V = FileView;

    open spec fn view(&self) -> FileView {
        FileView {
            id: self.id,
            url: self.url@,
            chunk_ids: self.chunk_ids@,
            number_of_chunks: self.number_of_chunks,
            file_name: self.file_name@,
            file_type: self.file_type,
            owner: self.owner@,
            metadata: self.metadata@,
            deleted_at: self.deleted_at,
            created_at: self.created_at,
            updated_at: self.updated_at,
            accessors: identity_views(self.accessors@),
            hash: self.hash@,
        }
    }
}

/// One piece of a stored object.
#[derive(Debug)]
pub struct FileChunk {
    pub id: u64,
    pub file_id: u64,
    pub order_id: u64,
    pub chunk_data: Vec<u8>,
    pub metadata: String,
    pub deleted_at: Option<u64>,
    pub created_at: u64,
    pub updated_at: u64,
    pub hash: Hash,
}

/// What a `FileChunk` holds.
#[verifier::ext_equal]
pub struct FileChunkView {
    pub id: u64,
    pub file_id: u64,
    pub order_id: u64,
    pub chunk_data: Seq<u8>,
    pub metadata: Seq<char>,
    pub deleted_at: Option<u64>,
    pub created_at: u64,
    pub updated_at: u64,
    pub hash: Seq<u8>,
}

impl View for FileChunk {
    type V = FileChunkView;

    open spec fn view(&self) -> FileChunkView {
        FileChunkView {
            id: self.id,
            file_id: self.file_id,
            order_id: self.order_id,
            chunk_data: self.chunk_data@,
            metadata: self.metadata@,
            deleted_at: self.deleted_at,
            created_at: self.created_at,
            updated_at: self.updated_at,
            hash: self.hash@,
        }
    }
}

/// A copy of a list of identities.
pub fn clone_identities(ids: &Vec<Identity>) -> (r: Vec<Identity>)
    ensures
        identity_views(r@) == identity_views(ids@),
{
    let mut r: Vec<Identity> = Vec::new();
    let mut i: usize = 0;
    while i < ids.len()
        invariant
            i <= ids@.len(),
            r@.len() == i,
            forall|j: int| 0 <= j < i ==> (#[trigger] r@[j])@ == ids@[j]@,
        decreases ids@.len() - i,
    {
        r.push(ids[i].clone());
        i += 1;
    }
    assert(identity_views(r@) =~= identity_views(ids@));
    r
}

impl Clone for File {
    fn clone(&self) -> (r: Self)
        ensures
            r@ == self@,
    {
        let r = File {
            id: self.id,
            url: self.url.clone(),
            chunk_ids: slice_to_vec(self.chunk_ids.as_slice()),
            number_of_chunks: self.number_of_chunks,
            file_name: self.file_name.clone(),
            file_type: self.file_type,
            owner: self.owner.clone(),
            metadata: self.metadata.clone(),
            deleted_at: self.deleted_at,
            created_at: self.created_at,
            updated_at: self.updated_at,
            accessors: clone_identities(&self.accessors),
            hash: self.hash,
        };
        assert(r@ =~= self@);
        r
    }
}

impl Clone for FileChunk {
    fn clone(&self) -> (r: Self)
        ensures
            r@ == self@,
    {
        let r = FileChunk {
            id: self.id,
            file_id: self.file_id,
            order_id: self.order_id,
            chunk_data: slice_to_vec(self.chunk_data.as_slice()),
            metadata: self.metadata.clone(),
            deleted_at: self.deleted_at,
            created_at: self.created_at,
            updated_at: self.updated_at,
            hash: self.hash,
        };
        assert(r@ =~= self@);
        r
    }
}

impl FileView {
    /// The file as callers see it.
    pub open spec fn fe_view(self) -> FEFileView {
        FEFileView {
            id: self.id,
            chunk_ids: self.chunk_ids,
            number_of_chunks: self.number_of_chunks,
            file_name: self.file_name,
            file_type: self.file_type.mime(),
            owner: self.owner,
            metadata: self.metadata,
            url: self.url,
            created_at: self.created_at,
            updated_at: self.updated_at,
        }
    }
}

impl File {
    /// The file as callers see it.
    pub fn create_fe_type(&self) -> (fe: FEFile)
        ensures
            fe@ == self@.fe_view(),
    {
        let fe = FEFile {
            id: self.id,
            chunk_ids: slice_to_vec(self.chunk_ids.as_slice()),
            number_of_chunks: self.number_of_chunks,
            file_name: self.file_name.clone(),
            file_type: String::from_str(self.file_type.as_str()),
            owner: self.owner.clone(),
            metadata: self.metadata.clone(),
            url: self.url.clone(),
            created_at: self.created_at,
            updated_at: self.updated_at,
        };
        assert(fe@ =~= self@.fe_view());
        fe
    }
}

} // verus!
