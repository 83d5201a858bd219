//! How a record is laid out in bytes: as a list of fields, each a run of
//! bytes behind its length in eight bytes, the low byte first.

use vstd::bytes::{
    lemma_auto_spec_u64_to_from_le_bytes, spec_u64_from_le_bytes, spec_u64_to_le_bytes,
    u64_from_le_bytes, u64_to_le_bytes,
};
use vstd::prelude::*;
use vstd::slice::{slice_subrange, slice_to_vec};
use vstd::utf8::{
    decode_utf8, encode_utf8, encode_utf8_decode_utf8, encode_utf8_valid_utf8, valid_utf8,
};

use crate::identity::{Identity, MAX_IDENTITY_BYTES};

verus! {

/// The bytes of a list of fields.
pub open spec fn frame(fields: Seq<Seq<u8>>) -> Seq<u8>
    decreases fields.len(),
{
    if fields.len() == 0 {
        Seq::empty()
    } else {
        frame(fields.drop_last()) + spec_u64_to_le_bytes(fields.last().len() as u64)
            + fields.last()
    }
}

/// The list of fields that bytes hold, if they hold one.
pub open spec fn unframe(bytes: Seq<u8>) -> Option<Seq<Seq<u8>>>
    decreases bytes.len(),
{
    if bytes.len() == 0 {
        Some(Seq::empty())
    } else if bytes.len() < 8 {
        None
    } else {
        let n = spec_u64_from_le_bytes(bytes.subrange(0, 8)) as int;
        if bytes.len() - 8 < n {
            None
        } else {
            match unframe(bytes.subrange(8 + n, bytes.len() as int)) {
                Some(rest) => Some(seq![bytes.subrange(8, 8 + n)] + rest),
                None => None,
            }
        }
    }
}

/// Each field is short enough for its length to be written down.
pub open spec fn framable(fields: Seq<Seq<u8>>) -> bool {
    forall|i: int| 0 <= i < fields.len() ==> (#[trigger] fields[i]).len() <= u64::MAX
}

/// The bytes of each vector.
pub open spec fn views(fields: Seq<Vec<u8>>) -> Seq<Seq<u8>> {
    Seq::new(fields.len(), |i: int| fields[i]@)
}

/// The bytes of a list start with its first field.
pub proof fn lemma_frame_front(first: Seq<u8>, rest: Seq<Seq<u8>>)
    ensures
        frame(seq![first] + rest) == spec_u64_to_le_bytes(first.len() as u64) + first + frame(
            rest,
        ),
    decreases rest.len(),
{
    let all = seq![first] + rest;
    if rest.len() == 0 {
        assert(all.drop_last() =~= Seq::<Seq<u8>>::empty());
        assert(rest =~= Seq::<Seq<u8>>::empty());
        assert(all.last() == first);
        assert(frame(all.drop_last()) =~= Seq::<u8>::empty());
        assert(frame(rest) =~= Seq::<u8>::empty());
        assert(frame(all) =~= spec_u64_to_le_bytes(first.len() as u64) + first + frame(rest));
    } else {
        lemma_frame_front(first, rest.drop_last());
        assert(all.drop_last() =~= seq![first] + rest.drop_last());
        assert(all.last() == rest.last());
        assert(frame(all) =~= spec_u64_to_le_bytes(first.len() as u64) + first + frame(rest));
    }
}

/// What was laid out in bytes is read back as it was.
pub proof fn lemma_unframe_frame(fields: Seq<Seq<u8>>)
    requires
        framable(fields),
    ensures
        unframe(frame(fields)) == Some(fields),
    decreases fields.len(),
{
    lemma_auto_spec_u64_to_from_le_bytes();
    if fields.len() > 0 {
        let first = fields[0];
        let rest = fields.drop_first();
        assert(fields =~= seq![first] + rest);
        lemma_frame_front(first, rest);
        assert(framable(rest)) by {
            assert forall|i: int| 0 <= i < rest.len() implies (#[trigger] rest[i]).len()
                <= u64::MAX by {
                assert(rest[i] == fields[i + 1]);
            }
        }
        lemma_unframe_frame(rest);
        let head = spec_u64_to_le_bytes(first.len() as u64);
        let bytes = frame(fields);
        assert(bytes == head + first + frame(rest));
        assert(bytes.subrange(0, 8) =~= head);
        let n = first.len() as int;
        assert(bytes.subrange(8, 8 + n) =~= first);
        assert(bytes.subrange(8 + n, bytes.len() as int) =~= frame(rest));
    }
}

/// Appends one field to the bytes of a list.
pub fn push_field(out: &mut Vec<u8>, field: &[u8])
    ensures
        final(out)@ == old(out)@ + spec_u64_to_le_bytes(field@.len() as u64) + field@,
{
    let mut head = u64_to_le_bytes(field.len() as u64);
    out.append(&mut head);
    let ghost mid = out@;
    out.extend_from_slice(field);
    assert(out@ =~= mid + field@);
}

/// The bytes of a list of fields.
pub fn frame_fields(fields: &Vec<Vec<u8>>) -> (out: Vec<u8>)
    ensures
        out@ == frame(views(fields@)),
{
    let mut out: Vec<u8> = Vec::new();
    let mut i: usize = 0;
    while i < fields.len()
        invariant
            i <= fields@.len(),
            out@ == frame(views(fields@).take(i as int)),
        decreases fields@.len() - i,
    {
        push_field(&mut out, fields[i].as_slice());
        proof {
            let next = views(fields@).take(i + 1);
            assert(next.drop_last() =~= views(fields@).take(i as int));
            assert(next.last() == fields@[i as int]@);
        }
        i += 1;
    }
    assert(views(fields@).take(i as int) =~= views(fields@));
    out
}

/// Reads the list of fields that bytes hold.
pub fn unframe_bytes(bytes: &[u8]) -> (r: Option<Vec<Vec<u8>>>)
    ensures
        r is Some <==> unframe(bytes@) is Some,
        r matches Some(fields) ==> unframe(bytes@) == Some(views(fields@)),
{
    let mut fields: Vec<Vec<u8>> = Vec::new();
    let mut pos: usize = 0;
    let len: usize = bytes.len();
    assert(bytes@.subrange(0, len as int) =~= bytes@);
    assert(views(fields@) =~= Seq::<Seq<u8>>::empty());
    while pos < len
        invariant
            pos <= len == bytes@.len(),
            unframe(bytes@) == match unframe(bytes@.subrange(pos as int, len as int)) {
                Some(rest) => Some(views(fields@) + rest),
                None => None,
            },
        decreases len - pos,
    {
        let ghost tail = bytes@.subrange(pos as int, len as int);
        if len - pos < 8 {
            return None;
        }
        let n64: u64 = u64_from_le_bytes(slice_subrange(bytes, pos, pos + 8));
        assert(tail.subrange(0, 8) =~= bytes@.subrange(pos as int, pos + 8));
        let room: u64 = (len - pos - 8) as u64;
        if room < n64 {
            return None;
        }
        let n: usize = n64 as usize;
        let field = slice_to_vec(slice_subrange(bytes, pos + 8, pos + 8 + n));
        proof {
            assert(tail.subrange(8, 8 + n) =~= field@);
            assert(tail.subrange(8 + n, tail.len() as int) =~= bytes@.subrange(
                pos + 8 + n,
                len as int,
            ));
            let before = views(fields@);
            let after = views(fields@.push(field));
            assert(after =~= before + seq![field@]);
            match unframe(bytes@.subrange(pos + 8 + n, len as int)) {
                Some(rest) => {
                    assert(before + (seq![field@] + rest) =~= after + rest);
                },
                None => {},
            }
        }
        fields.push(field);
        pos = pos + 8 + n;
    }
    assert(bytes@.subrange(pos as int, len as int) =~= Seq::<u8>::empty());
    assert(views(fields@) + Seq::<Seq<u8>>::empty() =~= views(fields@));
    Some(fields)
}

/// `String::from_utf8`: the text that bytes spell in UTF-8, and none where
/// they spell no text.
#[verifier::external_body]
pub(crate) fn string_from_utf8(bytes: Vec<u8>) -> (r: Option<String>)
    ensures
        r is Some <==> valid_utf8(bytes@),
        r matches Some(s) ==> s@ == decode_utf8(bytes@),
{
    String::from_utf8(bytes).ok()
}


/// The field that holds a number: its eight bytes, the low byte first.
pub open spec fn number_field(x: u64) -> Seq<u8> {
    spec_u64_to_le_bytes(x)
}

/// The number that a field holds, if it holds one.
pub open spec fn number_of(field: Seq<u8>) -> Option<u64> {
    if field.len() == 8 {
        Some(spec_u64_from_le_bytes(field))
    } else {
        None
    }
}

/// The field that holds a text: its bytes in UTF-8.
pub open spec fn text_field(text: Seq<char>) -> Seq<u8> {
    encode_utf8(text)
}

/// The text that a field holds, if it holds one.
pub open spec fn text_of(field: Seq<u8>) -> Option<Seq<char>> {
    if valid_utf8(field) {
        Some(decode_utf8(field))
    } else {
        None
    }
}

/// The field that holds a number or nothing: no bytes for nothing.
pub open spec fn option_field(x: Option<u64>) -> Seq<u8> {
    match x {
        Some(v) => spec_u64_to_le_bytes(v),
        None => Seq::empty(),
    }
}

/// What a field for a number or nothing holds, if it is such a field.
pub open spec fn option_of(field: Seq<u8>) -> Option<Option<u64>> {
    if field.len() == 0 {
        Some(None)
    } else if field.len() == 8 {
        Some(Some(spec_u64_from_le_bytes(field)))
    } else {
        None
    }
}

/// The field that holds a list of numbers: a list of fields, one for each.
pub open spec fn numbers_field(xs: Seq<u64>) -> Seq<u8> {
    frame(Seq::new(xs.len(), |i: int| spec_u64_to_le_bytes(xs[i])))
}

/// Every field holds a number.
pub open spec fn all_numbers(fields: Seq<Seq<u8>>) -> bool {
    forall|i: int| 0 <= i < fields.len() ==> (#[trigger] fields[i]).len() == 8
}

/// The list of numbers that a field holds, if it holds one.
pub open spec fn numbers_of(field: Seq<u8>) -> Option<Seq<u64>> {
    match unframe(field) {
        Some(items) => if all_numbers(items) {
            Some(Seq::new(items.len(), |i: int| spec_u64_from_le_bytes(items[i])))
        } else {
            None
        },
        None => None,
    }
}

/// The field that holds a list of identities: a list of fields, one for each.
pub open spec fn identities_field(ids: Seq<Seq<u8>>) -> Seq<u8> {
    frame(ids)
}

/// Every field is short enough for an identity.
pub open spec fn all_identities(fields: Seq<Seq<u8>>) -> bool {
    forall|i: int| 0 <= i < fields.len() ==> (#[trigger] fields[i]).len() <= MAX_IDENTITY_BYTES
}

/// The list of identities that a field holds, if it holds one.
pub open spec fn identities_of(field: Seq<u8>) -> Option<Seq<Seq<u8>>> {
    match unframe(field) {
        Some(items) => if all_identities(items) {
            Some(items)
        } else {
            None
        },
        None => None,
    }
}

/// The bytes of each identity.
pub open spec fn identity_views(ids: Seq<Identity>) -> Seq<Seq<u8>> {
    Seq::new(ids.len(), |i: int| ids[i]@)
}

/// Each kind of field is read back as it was written.
pub proof fn lemma_fields_read_back()
    ensures
        forall|x: u64| #[trigger] number_of(number_field(x)) == Some(x),
        forall|t: Seq<char>| #[trigger] text_of(text_field(t)) == Some(t),
        forall|x: Option<u64>| #[trigger] option_of(option_field(x)) == Some(x),
        forall|xs: Seq<u64>| #[trigger] numbers_of(numbers_field(xs)) == Some(xs),
        forall|ids: Seq<Seq<u8>>|
            all_identities(ids) ==> #[trigger] identities_of(identities_field(ids)) == Some(ids),
{
    lemma_auto_spec_u64_to_from_le_bytes();
    assert forall|t: Seq<char>| #[trigger] text_of(text_field(t)) == Some(t) by {
        encode_utf8_valid_utf8(t);
        encode_utf8_decode_utf8(t);
    }
    assert forall|x: Option<u64>| #[trigger] option_of(option_field(x)) == Some(x) by {
        match x {
            Some(v) => {
                assert(spec_u64_to_le_bytes(v).len() == 8);
            },
            None => {},
        }
    }
    assert forall|xs: Seq<u64>| #[trigger] numbers_of(numbers_field(xs)) == Some(xs) by {
        let items = Seq::new(xs.len(), |i: int| spec_u64_to_le_bytes(xs[i]));
        assert(framable(items)) by {
            assert forall|i: int| 0 <= i < items.len() implies (#[trigger] items[i]).len()
                <= u64::MAX by {
                assert(spec_u64_to_le_bytes(xs[i]).len() == 8);
            }
        }
        lemma_unframe_frame(items);
        assert(all_numbers(items)) by {
            assert forall|i: int| 0 <= i < items.len() implies (#[trigger] items[i]).len()
                == 8 by {
                assert(spec_u64_to_le_bytes(xs[i]).len() == 8);
            }
        }
        assert(Seq::new(items.len(), |i: int| spec_u64_from_le_bytes(items[i])) =~= xs);
    }
    assert forall|ids: Seq<Seq<u8>>| all_identities(ids) implies #[trigger] identities_of(
        identities_field(ids),
    ) == Some(ids) by {
        assert(framable(ids));
        lemma_unframe_frame(ids);
    }
}

/// The field for a number.
pub fn write_number(x: u64) -> (field: Vec<u8>)
    ensures
        field@ == number_field(x),
{
    u64_to_le_bytes(x)
}

/// The number in a field.
pub fn read_number(field: &[u8]) -> (r: Option<u64>)
    ensures
        r == number_of(field@),
{
    if field.len() == 8 {
        Some(u64_from_le_bytes(field))
    } else {
        None
    }
}

/// The field for a text.
pub fn write_text(text: &str) -> (field: Vec<u8>)
    ensures
        field@ == text_field(text@),
{
    slice_to_vec(text.as_bytes())
}

/// The text in a field.
pub fn read_text(field: &[u8]) -> (r: Option<String>)
    ensures
        r is Some <==> text_of(field@) is Some,
        r matches Some(s) ==> text_of(field@) == Some(s@),
{
    string_from_utf8(slice_to_vec(field))
}

/// The field for a number or nothing.
pub fn write_option(x: Option<u64>) -> (field: Vec<u8>)
    ensures
        field@ == option_field(x),
{
    match x {
        Some(v) => u64_to_le_bytes(v),
        None => Vec::new(),
    }
}

/// The number or nothing in a field.
pub fn read_option(field: &[u8]) -> (r: Option<Option<u64>>)
    ensures
        r == option_of(field@),
{
    if field.len() == 0 {
        Some(None)
    } else if field.len() == 8 {
        Some(Some(u64_from_le_bytes(field)))
    } else {
        None
    }
}

/// The field for a list of numbers.
pub fn write_numbers(xs: &Vec<u64>) -> (field: Vec<u8>)
    ensures
        field@ == numbers_field(xs@),
{
    let mut items: Vec<Vec<u8>> = Vec::new();
    let mut i: usize = 0;
    while i < xs.len()
        invariant
            i <= xs@.len(),
            items@.len() == i,
            forall|j: int| 0 <= j < i ==> (#[trigger] items@[j])@ == spec_u64_to_le_bytes(xs@[j]),
        decreases xs@.len() - i,
    {
        items.push(u64_to_le_bytes(xs[i]));
        i += 1;
    }
    assert(views(items@) =~= Seq::new(xs@.len(), |i: int| spec_u64_to_le_bytes(xs@[i])));
    frame_fields(&items)
}

/// The list of numbers in a field.
pub fn read_numbers(field: &[u8]) -> (r: Option<Vec<u64>>)
    ensures
        r is Some <==> numbers_of(field@) is Some,
        r matches Some(xs) ==> numbers_of(field@) == Some(xs@),
{
    match unframe_bytes(field) {
        Some(items) => {
            let mut xs: Vec<u64> = Vec::new();
            let mut i: usize = 0;
            while i < items.len()
                invariant
                    unframe(field@) == Some(views(items@)),
                    i <= items@.len(),
                    xs@.len() == i,
                    forall|j: int| 0 <= j < i ==> (#[trigger] views(items@)[j]).len() == 8,
                    forall|j: int|
                        0 <= j < i ==> #[trigger] xs@[j] == spec_u64_from_le_bytes(items@[j]@),
                decreases items@.len() - i,
            {
                if items[i].len() != 8 {
                    assert(views(items@)[i as int].len() != 8);
                    return None;
                }
                xs.push(u64_from_le_bytes(items[i].as_slice()));
                i += 1;
            }
            assert(xs@ =~= Seq::new(
                items@.len(),
                |i: int| spec_u64_from_le_bytes(views(items@)[i]),
            ));
            Some(xs)
        },
        None => None,
    }
}

/// The field for a list of identities.
pub fn write_identities(ids: &Vec<Identity>) -> (field: Vec<u8>)
    ensures
        field@ == identities_field(identity_views(ids@)),
        all_identities(identity_views(ids@)),
{
    let mut items: Vec<Vec<u8>> = Vec::new();
    let mut i: usize = 0;
    while i < ids.len()
        invariant
            i <= ids@.len(),
            items@.len() == i,
            forall|j: int| 0 <= j < i ==> (#[trigger] items@[j])@ == ids@[j]@,
            forall|j: int| 0 <= j < i ==> (#[trigger] ids@[j])@.len() <= MAX_IDENTITY_BYTES,
        decreases ids@.len() - i,
    {
        items.push(slice_to_vec(ids[i].as_slice()));
        i += 1;
    }
    assert(views(items@) =~= identity_views(ids@));
    frame_fields(&items)
}

/// The list of identities in a field.
pub fn read_identities(field: &[u8]) -> (r: Option<Vec<Identity>>)
    ensures
        r is Some <==> identities_of(field@) is Some,
        r matches Some(ids) ==> identities_of(field@) == Some(identity_views(ids@)),
{
    match unframe_bytes(field) {
        Some(items) => {
            let mut ids: Vec<Identity> = Vec::new();
            let mut i: usize = 0;
            while i < items.len()
                invariant
                    unframe(field@) == Some(views(items@)),
                    i <= items@.len(),
                    ids@.len() == i,
                    forall|j: int|
                        0 <= j < i ==> (#[trigger] views(items@)[j]).len() <= MAX_IDENTITY_BYTES,
                    forall|j: int| 0 <= j < i ==> (#[trigger] ids@[j])@ == items@[j]@,
                decreases items@.len() - i,
            {
                match Identity::from_slice(items[i].as_slice()) {
                    Some(id) => {
                        ids.push(id);
                    },
                    None => {
                        assert(views(items@)[i as int].len() > MAX_IDENTITY_BYTES);
                        return None;
                    },
                }
                i += 1;
            }
            assert(identity_views(ids@) =~= views(items@));
            Some(ids)
        },
        None => None,
    }
}

} // verus!
