//! The settings of transfers.

use crate::api::error::{ApiError, Refusal};
use crate::api::sync::settings_text::{flag_on, read_flag};
use crate::api::sync::transfers::told;
use crate::text::{decimal, decimal_text};
use vstd::prelude::*;

verus! {

/// Whether the device sends what it captures on its own, from the setting as
/// it is kept.
pub fn get_sync_auto_mode(value: &str) -> (r: bool)
    ensures
        r == flag_on(value@),
{
    read_flag(value)
}

/// The setting, as it is kept, that says whether the device sends what it
/// captures on its own.
pub fn set_sync_auto_mode(enabled: bool) -> (r: String)
    ensures
        r@ == if enabled {
            "true"@
        } else {
            "false"@
        },
        flag_on(r@) == enabled,
{
    proof {
        reveal_strlit("true");
        reveal_strlit("false");
        assert("false"@.len() != "true"@.len());
    }
    if enabled {
        "true".to_owned()
    } else {
        "false".to_owned()
    }
}

/// The lowest limit for uploads, in bytes per second.
pub const MIN_UPLOAD_LIMIT: u64 = 100_000;

/// The largest number of transfers that are received at the same time.
pub const MAX_RECEIVES: usize = 8;

/// What is said of a limit for uploads: none at all, or one that does not look
/// like a standstill.
pub open spec fn upload_limit_verdict(bytes_per_sec: u64) -> Result<(), Refusal> {
    if bytes_per_sec != 0 && bytes_per_sec < MIN_UPLOAD_LIMIT {
        Err(
            Refusal::Invalid(
                "sync.max_upload_bytes_per_sec must be 0 (unlimited) or >= 100000"@,
            ),
        )
    } else {
        Ok(())
    }
}

/// Whether a limit for uploads is accepted.
pub fn validate_upload_limit(bytes_per_sec: u64) -> (r: Result<(), ApiError>)
    ensures
        told(r) == upload_limit_verdict(bytes_per_sec),
{
    if bytes_per_sec != 0 && bytes_per_sec < MIN_UPLOAD_LIMIT {
        return Err(
            ApiError::Invalid(
                "sync.max_upload_bytes_per_sec must be 0 (unlimited) or >= 100000".to_owned(),
            ),
        );
    }
    Ok(())
}

/// The limit for uploads, as it is kept.
pub fn set_sync_upload_limit(bytes_per_sec: u64) -> (r: Result<String, ApiError>)
    ensures
        match upload_limit_verdict(bytes_per_sec) {
            Ok(_) => r matches Ok(s) && s@ == decimal(bytes_per_sec as nat),
            Err(e) => r matches Err(x) && x@ == e,
        },
{
    match validate_upload_limit(bytes_per_sec) {
        Ok(_) => Ok(decimal_text(bytes_per_sec)),
        Err(e) => Err(e),
    }
}

/// What is said of the number of transfers that are received at the same time.
pub open spec fn receives_verdict(n: usize) -> Result<(), Refusal> {
    if n == 0 || n > MAX_RECEIVES {
        Err(Refusal::Invalid("sync.max_concurrent_receives must be 1..=8"@))
    } else {
        Ok(())
    }
}

/// Whether a number of transfers that are received at the same time is
/// accepted.
pub fn validate_max_concurrent_receives(n: usize) -> (r: Result<(), ApiError>)
    ensures
        told(r) == receives_verdict(n),
{
    if n == 0 || n > MAX_RECEIVES {
        return Err(
            ApiError::Invalid("sync.max_concurrent_receives must be 1..=8".to_owned()),
        );
    }
    Ok(())
}

/// The number of transfers that are received at the same time, as it is kept.
pub fn set_sync_max_concurrent_receives(n: usize) -> (r: Result<String, ApiError>)
    ensures
        match receives_verdict(n) {
            Ok(_) => r matches Ok(s) && s@ == decimal(n as nat),
            Err(e) => r matches Err(x) && x@ == e,
        },
{
    match validate_max_concurrent_receives(n) {
        Ok(_) => Ok(decimal_text(n as u64)),
        Err(e) => Err(e),
    }
}

/// The number of transfers that are received at the same time, as it was read;
/// none where it could not be, so that the receiver starts all the same.
pub fn configured_max_concurrent_receives(read: Result<usize, String>) -> (r: Option<usize>)
    ensures
        r == match read {
            Ok(n) => Some(n),
            Err(_) => None,
        },
{
    match read {
        Ok(n) => Some(n),
        Err(_) => None,
    }
}

} // verus!
