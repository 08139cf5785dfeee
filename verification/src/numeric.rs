//! Checked conversions between database integers and business values.

use vstd::prelude::*;

use crate::error::{BaseError, BaseRest, fails_unrecoverable, is_unrecoverable};

verus! {

/// `before + field + after`, the message of a conversion failure.
pub open spec fn field_message(before: Seq<char>, field: Seq<char>, after: Seq<char>) -> Seq<char> {
    before + field + after
}

fn field_error(before: &str, field: &str, after: &str) -> (e: BaseError)
    ensures
        is_unrecoverable(e, field_message(before@, field@, after@)),
{
    let mut message = String::from_str(before);
    message.append(field);
    message.append(after);
    BaseError::Unrecoverable { message }
}

/// Converts a database INTEGER into a non-negative business value.
pub fn usize_from_i32(value: i32, field: &str) -> (r: BaseRest<usize>)
    ensures
        value >= 0 ==> r == Ok::<usize, BaseError>(value as usize),
        value < 0 ==> fails_unrecoverable(
            r,
            field_message("database field "@, field@, " must be non-negative"@),
        ),
{
    if value >= 0 {
        Ok(value as usize)
    } else {
        Err(field_error("database field ", field, " must be non-negative"))
    }
}

/// Converts a business value into a database INTEGER.
pub fn i32_from_usize(value: usize, field: &str) -> (r: BaseRest<i32>)
    ensures
        value <= i32::MAX ==> r == Ok::<i32, BaseError>(value as i32),
        value > i32::MAX ==> fails_unrecoverable(
            r,
            field_message("database field "@, field@, " exceeds INTEGER range"@),
        ),
{
    if value <= i32::MAX as usize {
        Ok(value as i32)
    } else {
        Err(field_error("database field ", field, " exceeds INTEGER range"))
    }
}

/// Converts a database BIGINT into a non-negative role-mask value.
pub fn u32_from_i64(value: i64, field: &str) -> (r: BaseRest<u32>)
    ensures
        0 <= value <= u32::MAX ==> r == Ok::<u32, BaseError>(value as u32),
        !(0 <= value <= u32::MAX) ==> fails_unrecoverable(
            r,
            field_message("database field "@, field@, " must fit u32"@),
        ),
{
    if 0 <= value && value <= u32::MAX as i64 {
        Ok(value as u32)
    } else {
        Err(field_error("database field ", field, " must fit u32"))
    }
}

/// Converts a Unit search fetch count into its SQL LIMIT representation.
pub fn search_fetch_count(fetch_count: usize) -> (r: BaseRest<i64>)
    ensures
        fetch_count <= i64::MAX ==> r == Ok::<i64, BaseError>(fetch_count as i64),
        fetch_count > i64::MAX ==> fails_unrecoverable(
            r,
            "Unit search fetch count exceeds BIGINT"@,
        ),
{
    if fetch_count as u64 <= i64::MAX as u64 {
        Ok(fetch_count as i64)
    } else {
        Err(crate::error::unrecoverable("Unit search fetch count exceeds BIGINT"))
    }
}

/// A stored non-negative INTEGER survives the round trip to a business
/// value and back.
pub proof fn lemma_integer_round_trip(value: i32)
    requires
        value >= 0,
    ensures
        (value as usize) <= i32::MAX,
        ((value as usize) as i32) == value,
{
}

} // verus!
