//! The ZIP64 extended information of a header.

use vstd::prelude::*;

use crate::error::ZipError;
use crate::format::consts::NON_ZIP64_MAX_SIZE;
use crate::format::extra_field::{field_views, ExtraField, ExtraFieldView, Zip64ExtendedInformationExtraField};

verus! {

/// Where the first ZIP64 extended information field stands, if there is one.
pub open spec fn zip64_index(fields: Seq<ExtraFieldView>) -> Option<int>
    decreases fields.len(),
{
    if fields.len() == 0 {
        None
    } else if fields[0] is Zip64ExtendedInformation {
        Some(0)
    } else {
        match zip64_index(fields.drop_first()) {
            Some(i) => Some(i + 1),
            None => None,
        }
    }
}

/// The first ZIP64 extended information field, if there is one.
pub open spec fn zip64_field(fields: Seq<ExtraFieldView>) -> Option<Zip64ExtendedInformationExtraField> {
    match zip64_index(fields) {
        Some(i) => Some(fields[i]->Zip64ExtendedInformation_0),
        None => None,
    }
}

/// The index of the first ZIP64 extended information field is the index of one, and none comes before it.
pub proof fn lemma_zip64_index(fields: Seq<ExtraFieldView>)
    ensures
        zip64_index(fields) matches Some(i) ==> {
            &&& 0 <= i < fields.len()
            &&& fields[i] is Zip64ExtendedInformation
            &&& forall|j: int| 0 <= j < i ==> !(#[trigger] fields[j] is Zip64ExtendedInformation)
        },
        zip64_index(fields) is None ==> forall|j: int|
            0 <= j < fields.len() ==> !(#[trigger] fields[j] is Zip64ExtendedInformation),
    decreases fields.len(),
{
    if fields.len() > 0 && !(fields[0] is Zip64ExtendedInformation) {
        let rest = fields.drop_first();
        lemma_zip64_index(rest);
        assert forall|j: int| 0 < j < fields.len() implies fields[j] == rest[j - 1] by {}
    }
}

/// The first ZIP64 extended information field is found where it stands.
pub proof fn lemma_zip64_index_is(fields: Seq<ExtraFieldView>, i: int)
    requires
        0 <= i < fields.len(),
        fields[i] is Zip64ExtendedInformation,
        forall|j: int| 0 <= j < i ==> !(#[trigger] fields[j] is Zip64ExtendedInformation),
    ensures
        zip64_index(fields) == Some(i),
{
    lemma_zip64_index(fields);
    match zip64_index(fields) {
        Some(k) => {
            if k < i {
                assert(!(fields[k] is Zip64ExtendedInformation));
            } else if i < k {
                assert(!(fields[i] is Zip64ExtendedInformation));
            }
        },
        None => {
            assert(!(fields[i] is Zip64ExtendedInformation));
        },
    }
}

/// Returns the first ZIP64 extended information field, if there is one.
pub fn get_zip64_extra_field(extra_fields: &[ExtraField]) -> (r: Option<&Zip64ExtendedInformationExtraField>)
    ensures
        match zip64_field(field_views(extra_fields@)) {
            Some(zip64) => r == Some(&zip64),
            None => r is None,
        },
{
    let ghost views = field_views(extra_fields@);
    let mut i: usize = 0;
    while i < extra_fields.len()
        invariant
            i <= extra_fields@.len(),
            views == field_views(extra_fields@),
            forall|j: int| 0 <= j < i ==> !(#[trigger] views[j] is Zip64ExtendedInformation),
        decreases extra_fields@.len() - i,
    {
        if let ExtraField::Zip64ExtendedInformation(zip64) = &extra_fields[i] {
            proof {
                assert(views[i as int] is Zip64ExtendedInformation);
                lemma_zip64_index_is(views, i as int);
            }
            return Some(zip64);
        }
        assert(views[i as int] == extra_fields@[i as int]@);
        i += 1;
    }
    proof {
        lemma_zip64_index(views);
    }
    None
}

/// Returns the first ZIP64 extended information field, if there is one, to be changed in place.
pub fn get_zip64_extra_field_mut(extra_fields: &mut Vec<ExtraField>) -> (r: Option<
    &mut Zip64ExtendedInformationExtraField,
>)
    ensures
        match zip64_index(field_views(old(extra_fields)@)) {
            Some(i) => {
                &&& r is Some
                &&& *r->Some_0 == field_views(old(extra_fields)@)[i]->Zip64ExtendedInformation_0
                &&& final(extra_fields)@ == old(extra_fields)@.update(
                    i,
                    ExtraField::Zip64ExtendedInformation(*final(r->Some_0)),
                )
            },
            None => r is None && final(extra_fields)@ == old(extra_fields)@,
        },
{
    let ghost views = field_views(extra_fields@);
    let mut i: usize = 0;
    while i < extra_fields.len()
        invariant
            i <= extra_fields@.len(),
            *extra_fields == *old(extra_fields),
            views == field_views(extra_fields@),
            forall|j: int| 0 <= j < i ==> !(#[trigger] views[j] is Zip64ExtendedInformation),
        decreases extra_fields@.len() - i,
    {
        if matches!(&extra_fields[i], ExtraField::Zip64ExtendedInformation(_)) {
            proof {
                assert(views[i as int] is Zip64ExtendedInformation);
                lemma_zip64_index_is(views, i as int);
            }
            match &mut extra_fields[i] {
                ExtraField::Zip64ExtendedInformation(zip64) => {
                    return Some(zip64);
                },
                _ => {
                    return None;
                },
            }
        }
        assert(views[i as int] == extra_fields@[i as int]@);
        i += 1;
    }
    proof {
        lemma_zip64_index(views);
    }
    None
}

/// The sizes of an entry (uncompressed, compressed): those of the header, or those of the ZIP64 extended information
/// where the header refers to it.
pub open spec fn combined_sizes(
    uncompressed_size: u32,
    compressed_size: u32,
    field: Option<Zip64ExtendedInformationExtraField>,
) -> Result<(u64, u64), ZipError> {
    let uncompressed = if uncompressed_size != NON_ZIP64_MAX_SIZE {
        Some(uncompressed_size as u64)
    } else if field is Some {
        field->Some_0.uncompressed_size
    } else {
        None
    };
    let compressed = if compressed_size != NON_ZIP64_MAX_SIZE {
        Some(compressed_size as u64)
    } else if field is Some {
        field->Some_0.compressed_size
    } else {
        None
    };
    if uncompressed is Some && compressed is Some {
        Ok((uncompressed->Some_0, compressed->Some_0))
    } else {
        Err(ZipError::Zip64ExtendedFieldIncomplete)
    }
}

/// Returns the sizes of an entry (uncompressed, compressed) from its header and its ZIP64 extended information.
pub fn get_combined_sizes(
    uncompressed_size: u32,
    compressed_size: u32,
    extra_field: &Option<&Zip64ExtendedInformationExtraField>,
) -> (r: Result<(u64, u64), ZipError>)
    ensures
        r == combined_sizes(
            uncompressed_size,
            compressed_size,
            match *extra_field {
                Some(field) => Some(*field),
                None => None,
            },
        ),
{
    let mut uncompressed: u64 = uncompressed_size as u64;
    let mut compressed: u64 = compressed_size as u64;
    if uncompressed_size == NON_ZIP64_MAX_SIZE {
        match extra_field {
            Some(field) => match field.uncompressed_size {
                Some(size) => uncompressed = size,
                None => return Err(ZipError::Zip64ExtendedFieldIncomplete),
            },
            None => return Err(ZipError::Zip64ExtendedFieldIncomplete),
        }
    }
    if compressed_size == NON_ZIP64_MAX_SIZE {
        match extra_field {
            Some(field) => match field.compressed_size {
                Some(size) => compressed = size,
                None => return Err(ZipError::Zip64ExtendedFieldIncomplete),
            },
            None => return Err(ZipError::Zip64ExtendedFieldIncomplete),
        }
    }
    Ok((uncompressed, compressed))
}

} // verus!
