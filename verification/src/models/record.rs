//! How files and chunks are written down as bytes in the record maps.

use vstd::prelude::*;
use vstd::slice::slice_to_vec;

use crate::codec::{
    all_identities, framable, frame, frame_fields, identities_field, identities_of,
    lemma_fields_read_back, lemma_unframe_frame, number_field, number_of, numbers_field,
    numbers_of, option_field, option_of, read_identities, read_number, read_numbers, read_option,
    read_text, text_field, text_of, unframe, unframe_bytes, views, write_identities, write_number,
    write_numbers, write_option, write_text,
};
use crate::identity::{Identity, MAX_IDENTITY_BYTES};
use crate::models::file::{
    file_type_of_code, lemma_file_type_names, File, FileChunk, FileChunkView, FileType, FileView,
};

verus! {

/// The fields of a file's record.
pub open spec fn file_fields(f: FileView) -> Seq<Seq<u8>> {
    seq![
        number_field(f.id),
        text_field(f.url),
        numbers_field(f.chunk_ids),
        number_field(f.number_of_chunks),
        text_field(f.file_name),
        seq![f.file_type.code()],
        f.owner,
        text_field(f.metadata),
        option_field(f.deleted_at),
        number_field(f.created_at),
        number_field(f.updated_at),
        identities_field(f.accessors),
        f.hash,
    ]
}

/// The file that the fields of a record tell of, if they tell of one.
pub open spec fn file_of_fields(fields: Seq<Seq<u8>>) -> Option<FileView> {
    if fields.len() == 13 && number_of(fields[0]) is Some && text_of(fields[1]) is Some
        && numbers_of(fields[2]) is Some && number_of(fields[3]) is Some && text_of(
        fields[4],
    ) is Some && fields[5].len() == 1 && file_type_of_code(fields[5][0]) is Some
        && fields[6].len() <= MAX_IDENTITY_BYTES && text_of(fields[7]) is Some && option_of(
        fields[8],
    ) is Some && number_of(fields[9]) is Some && number_of(fields[10]) is Some && identities_of(
        fields[11],
    ) is Some && fields[12].len() == 32 {
        Some(
            FileView {
                id: number_of(fields[0])->0,
                url: text_of(fields[1])->0,
                chunk_ids: numbers_of(fields[2])->0,
                number_of_chunks: number_of(fields[3])->0,
                file_name: text_of(fields[4])->0,
                file_type: file_type_of_code(fields[5][0])->0,
                owner: fields[6],
                metadata: text_of(fields[7])->0,
                deleted_at: option_of(fields[8])->0,
                created_at: number_of(fields[9])->0,
                updated_at: number_of(fields[10])->0,
                accessors: identities_of(fields[11])->0,
                hash: fields[12],
            },
        )
    } else {
        None
    }
}

/// The record of a file.
pub open spec fn file_bytes(f: FileView) -> Seq<u8> {
    frame(file_fields(f))
}

/// The file that a record tells of, if it tells of one.
pub open spec fn parse_file(bytes: Seq<u8>) -> Option<FileView> {
    match unframe(bytes) {
        Some(fields) => file_of_fields(fields),
        None => None,
    }
}

/// A record can be written for the file and read back.
pub open spec fn file_recordable(f: FileView) -> bool {
    &&& f.owner.len() <= MAX_IDENTITY_BYTES
    &&& all_identities(f.accessors)
    &&& f.hash.len() == 32
    &&& framable(file_fields(f))
}

/// The record of a file tells of that file.
pub proof fn lemma_parse_file(f: FileView)
    requires
        file_recordable(f),
    ensures
        parse_file(file_bytes(f)) == Some(f),
{
    lemma_fields_read_back();
    lemma_file_type_names(f.file_type);
    let fields = file_fields(f);
    lemma_unframe_frame(fields);
    assert(fields[5][0] == f.file_type.code());
    assert(file_of_fields(fields)->0 =~= f);
}

/// The fields of a chunk's record.
pub open spec fn chunk_fields(c: FileChunkView) -> Seq<Seq<u8>> {
    seq![
        number_field(c.id),
        number_field(c.file_id),
        number_field(c.order_id),
        c.chunk_data,
        text_field(c.metadata),
        option_field(c.deleted_at),
        number_field(c.created_at),
        number_field(c.updated_at),
        c.hash,
    ]
}

/// The chunk that the fields of a record tell of, if they tell of one.
pub open spec fn chunk_of_fields(fields: Seq<Seq<u8>>) -> Option<FileChunkView> {
    if fields.len() == 9 && number_of(fields[0]) is Some && number_of(fields[1]) is Some
        && number_of(fields[2]) is Some && text_of(fields[4]) is Some && option_of(
        fields[5],
    ) is Some && number_of(fields[6]) is Some && number_of(fields[7]) is Some
        && fields[8].len() == 32 {
        Some(
            FileChunkView {
                id: number_of(fields[0])->0,
                file_id: number_of(fields[1])->0,
                order_id: number_of(fields[2])->0,
                chunk_data: fields[3],
                metadata: text_of(fields[4])->0,
                deleted_at: option_of(fields[5])->0,
                created_at: number_of(fields[6])->0,
                updated_at: number_of(fields[7])->0,
                hash: fields[8],
            },
        )
    } else {
        None
    }
}

/// The record of a chunk.
pub open spec fn chunk_bytes(c: FileChunkView) -> Seq<u8> {
    frame(chunk_fields(c))
}

/// The chunk that a record tells of, if it tells of one.
pub open spec fn parse_chunk(bytes: Seq<u8>) -> Option<FileChunkView> {
    match unframe(bytes) {
        Some(fields) => chunk_of_fields(fields),
        None => None,
    }
}

/// A record can be written for the chunk and read back.
pub open spec fn chunk_recordable(c: FileChunkView) -> bool {
    &&& c.hash.len() == 32
    &&& framable(chunk_fields(c))
}

/// The record of a chunk tells of that chunk.
pub proof fn lemma_parse_chunk(c: FileChunkView)
    requires
        chunk_recordable(c),
    ensures
        parse_chunk(chunk_bytes(c)) == Some(c),
{
    lemma_fields_read_back();
    let fields = chunk_fields(c);
    lemma_unframe_frame(fields);
    assert(chunk_of_fields(fields)->0 =~= c);
}

/// The bytes that the record of a list of fields takes: eight for each
/// field, and the fields.
pub open spec fn framed_len(fields: Seq<Seq<u8>>) -> nat
    decreases fields.len(),
{
    if fields.len() == 0 {
        0
    } else {
        framed_len(fields.drop_last()) + 8 + fields.last().len()
    }
}

/// A record is as long as its fields and their lengths together.
pub proof fn lemma_frame_len(fields: Seq<Seq<u8>>)
    ensures
        frame(fields).len() == framed_len(fields),
    decreases fields.len(),
{
    vstd::bytes::lemma_auto_spec_u64_to_from_le_bytes();
    if fields.len() > 0 {
        lemma_frame_len(fields.drop_last());
    }
}

/// The record of a chunk without metadata that was not deleted takes 144
/// bytes beside the chunk's data: nine lengths, five numbers and the digest.
pub proof fn lemma_chunk_record_len(c: FileChunkView)
    requires
        c.metadata.len() == 0,
        c.deleted_at is None,
        c.hash.len() == 32,
    ensures
        chunk_bytes(c).len() == c.chunk_data.len() + 144,
{
    vstd::bytes::lemma_auto_spec_u64_to_from_le_bytes();
    let fields = chunk_fields(c);
    lemma_frame_len(fields);
    reveal_with_fuel(framed_len, 10);
    assert(c.metadata =~= Seq::<char>::empty());
    assert(vstd::utf8::encode_utf8(Seq::<char>::empty()).len() == 0) by {
        reveal_with_fuel(vstd::utf8::encode_utf8, 1);
    }
    assert(fields.drop_last().len() == 8);
}

fn read_hash(field: &[u8]) -> (r: Option<[u8; 32]>)
    ensures
        r is Some <==> field@.len() == 32,
        r matches Some(h) ==> h@ == field@,
{
    if field.len() != 32 {
        return None;
    }
    let mut hash: [u8; 32] = [0u8; 32];
    let mut i: usize = 0;
    while i < 32
        invariant
            i <= 32,
            field@.len() == 32,
            forall|j: int| 0 <= j < i ==> hash@[j] == field@[j],
        decreases 32 - i,
    {
        hash[i] = field[i];
        i += 1;
    }
    assert(hash@ =~= field@);
    Some(hash)
}

/// Writes the record of a file.
pub fn encode_file(file: &File) -> (bytes: Vec<u8>)
    ensures
        bytes@ == file_bytes(file@),
        parse_file(bytes@) == Some(file@),
{
    let mut fields: Vec<Vec<u8>> = Vec::new();
    fields.push(write_number(file.id));
    fields.push(write_text(file.url.as_str()));
    fields.push(write_numbers(&file.chunk_ids));
    fields.push(write_number(file.number_of_chunks));
    fields.push(write_text(file.file_name.as_str()));
    let mut kind: Vec<u8> = Vec::new();
    kind.push(file.file_type.to_code());
    fields.push(kind);
    fields.push(slice_to_vec(file.owner.as_slice()));
    fields.push(write_text(file.metadata.as_str()));
    fields.push(write_option(file.deleted_at));
    fields.push(write_number(file.created_at));
    fields.push(write_number(file.updated_at));
    fields.push(write_identities(&file.accessors));
    fields.push(slice_to_vec(file.hash.as_slice()));
    proof {
        assert(kind@ =~= seq![file.file_type.code()]);
        assert(views(fields@) =~= file_fields(file@));
        assert(framable(file_fields(file@))) by {
            assert forall|i: int| 0 <= i < file_fields(file@).len() implies (
            #[trigger] file_fields(file@)[i]).len() <= u64::MAX by {
                assert(file_fields(file@)[i] == views(fields@)[i]);
                assert(fields@[i]@.len() == fields@[i].len());
            }
        }
        lemma_parse_file(file@);
    }
    frame_fields(&fields)
}

/// Reads the record of a file.
pub fn decode_file(bytes: &[u8]) -> (r: Option<File>)
    ensures
        r is Some <==> parse_file(bytes@) is Some,
        r matches Some(file) ==> parse_file(bytes@) == Some(file@),
{
    let fields = match unframe_bytes(bytes) {
        Some(fields) => fields,
        None => {
            return None;
        },
    };
    if fields.len() != 13 {
        return None;
    }
    assert(forall|i: int| 0 <= i < 13 ==> (#[trigger] views(fields@)[i]) == fields@[i]@);
    let id = match read_number(fields[0].as_slice()) {
        Some(v) => v,
        None => {
            return None;
        },
    };
    let url = match read_text(fields[1].as_slice()) {
        Some(v) => v,
        None => {
            return None;
        },
    };
    let chunk_ids = match read_numbers(fields[2].as_slice()) {
        Some(v) => v,
        None => {
            return None;
        },
    };
    let number_of_chunks = match read_number(fields[3].as_slice()) {
        Some(v) => v,
        None => {
            return None;
        },
    };
    let file_name = match read_text(fields[4].as_slice()) {
        Some(v) => v,
        None => {
            return None;
        },
    };
    if fields[5].len() != 1 {
        return None;
    }
    let file_type = match FileType::from_code(fields[5][0]) {
        Some(v) => v,
        None => {
            return None;
        },
    };
    let owner = match Identity::from_slice(fields[6].as_slice()) {
        Some(v) => v,
        None => {
            return None;
        },
    };
    let metadata = match read_text(fields[7].as_slice()) {
        Some(v) => v,
        None => {
            return None;
        },
    };
    let deleted_at = match read_option(fields[8].as_slice()) {
        Some(v) => v,
        None => {
            return None;
        },
    };
    let created_at = match read_number(fields[9].as_slice()) {
        Some(v) => v,
        None => {
            return None;
        },
    };
    let updated_at = match read_number(fields[10].as_slice()) {
        Some(v) => v,
        None => {
            return None;
        },
    };
    let accessors = match read_identities(fields[11].as_slice()) {
        Some(v) => v,
        None => {
            return None;
        },
    };
    let hash = match read_hash(fields[12].as_slice()) {
        Some(v) => v,
        None => {
            return None;
        },
    };
    let file = File {
        id,
        url,
        chunk_ids,
        number_of_chunks,
        file_name,
        file_type,
        owner,
        metadata,
        deleted_at,
        created_at,
        updated_at,
        accessors,
        hash,
    };
    assert(file_of_fields(views(fields@))->0 =~= file@);
    Some(file)
}

/// Writes the record of a chunk.
pub fn encode_chunk(chunk: &FileChunk) -> (bytes: Vec<u8>)
    ensures
        bytes@ == chunk_bytes(chunk@),
        parse_chunk(bytes@) == Some(chunk@),
{
    let mut fields: Vec<Vec<u8>> = Vec::new();
    fields.push(write_number(chunk.id));
    fields.push(write_number(chunk.file_id));
    fields.push(write_number(chunk.order_id));
    fields.push(slice_to_vec(chunk.chunk_data.as_slice()));
    fields.push(write_text(chunk.metadata.as_str()));
    fields.push(write_option(chunk.deleted_at));
    fields.push(write_number(chunk.created_at));
    fields.push(write_number(chunk.updated_at));
    fields.push(slice_to_vec(chunk.hash.as_slice()));
    proof {
        assert(views(fields@) =~= chunk_fields(chunk@));
        assert(framable(chunk_fields(chunk@))) by {
            assert forall|i: int| 0 <= i < chunk_fields(chunk@).len() implies (
            #[trigger] chunk_fields(chunk@)[i]).len() <= u64::MAX by {
                assert(chunk_fields(chunk@)[i] == views(fields@)[i]);
                assert(fields@[i]@.len() == fields@[i].len());
            }
        }
        lemma_parse_chunk(chunk@);
    }
    frame_fields(&fields)
}

/// Reads the record of a chunk.
pub fn decode_chunk(bytes: &[u8]) -> (r: Option<FileChunk>)
    ensures
        r is Some <==> parse_chunk(bytes@) is Some,
        r matches Some(chunk) ==> parse_chunk(bytes@) == Some(chunk@),
{
    let fields = match unframe_bytes(bytes) {
        Some(fields) => fields,
        None => {
            return None;
        },
    };
    if fields.len() != 9 {
        return None;
    }
    assert(forall|i: int| 0 <= i < 9 ==> (#[trigger] views(fields@)[i]) == fields@[i]@);
    let id = match read_number(fields[0].as_slice()) {
        Some(v) => v,
        None => {
            return None;
        },
    };
    let file_id = match read_number(fields[1].as_slice()) {
        Some(v) => v,
        None => {
            return None;
        },
    };
    let order_id = match read_number(fields[2].as_slice()) {
        Some(v) => v,
        None => {
            return None;
        },
    };
    let metadata = match read_text(fields[4].as_slice()) {
        Some(v) => v,
        None => {
            return None;
        },
    };
    let deleted_at = match read_option(fields[5].as_slice()) {
        Some(v) => v,
        None => {
            return None;
        },
    };
    let created_at = match read_number(fields[6].as_slice()) {
        Some(v) => v,
        None => {
            return None;
        },
    };
    let updated_at = match read_number(fields[7].as_slice()) {
        Some(v) => v,
        None => {
            return None;
        },
    };
    let hash = match read_hash(fields[8].as_slice()) {
        Some(v) => v,
        None => {
            return None;
        },
    };
    let chunk = FileChunk {
        id,
        file_id,
        order_id,
        chunk_data: slice_to_vec(fields[3].as_slice()),
        metadata,
        deleted_at,
        created_at,
        updated_at,
        hash,
    };
    assert(chunk_of_fields(views(fields@))->0 =~= chunk@);
    Some(chunk)
}

} // verus!
