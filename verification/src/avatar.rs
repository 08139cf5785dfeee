//! Avatar reservation decisions.

use vstd::prelude::*;

use crate::error::{BaseRest, ExpectedVariant, expected, fails_expected, fails_unrecoverable, unrecoverable};

verus! {

/// The avatar columns of a user row, as read under lock.
pub struct StoredAvatar {
    pub key: Option<String>,
    pub uploaded: Option<bool>,
    pub version: Option<i64>,
    pub hash: Option<Vec<u8>>,
    pub extension: Option<String>,
}

/// The reservation handed back to the caller.
#[derive(Debug)]
pub struct UserAvatarReservation {
    pub object_key: String,
    pub prev_object_key: Option<String>,
    pub avatar_version: u32,
    pub is_upload_required: bool,
}

/// What a reservation request leads to.
#[derive(Debug)]
pub enum AvatarPlan {
    /// The same image is already reserved: hand back its reservation.
    Reuse(UserAvatarReservation),
    /// A new version must be reserved after the stored one.
    Advance { prev_key: Option<String>, prev_version: i64 },
}

/// The stored avatar holds a key and the same image hash.
pub open spec fn same_image(stored: StoredAvatar, hash: Seq<u8>) -> bool {
    &&& stored.key is Some
    &&& (stored.hash matches Some(h) && h@ == hash)
}

fn bytes_eq(a: &Vec<u8>, b: &[u8]) -> (r: bool)
    ensures
        r == (a@ == b@),
{
    if a.len() != b.len() {
        return false;
    }
    let n = a.len();
    let mut i: usize = 0;
    while i < n
        invariant
            n == a@.len(),
            n == b@.len(),
            i <= n,
            forall|k: int| 0 <= k < i ==> a@[k] == b@[k],
        decreases n - i,
    {
        if a[i] != b[i] {
            return false;
        }
        i += 1;
    }
    assert(a@ =~= b@);
    true
}

/// Decides a reservation: reuse the stored one when it holds the same image
/// (rejecting a different extension), otherwise advance past the stored
/// version.
pub fn plan_avatar_reservation(stored: StoredAvatar, image_hash: &[u8], image_ext: &str) -> (r: BaseRest<AvatarPlan>)
    ensures
        same_image(stored, image_hash@) && !(stored.extension matches Some(e) && e@ == image_ext@)
            ==> fails_expected(r, ExpectedVariant::Args, "error-invalid-image-extension"@),
        same_image(stored, image_hash@) && (stored.extension matches Some(e) && e@ == image_ext@)
            ==> match stored.version {
            None => fails_unrecoverable(r, "[reserve_avatar] avatar version is missing"@),
            Some(v) => if 0 <= v <= u32::MAX {
                (r matches Ok(AvatarPlan::Reuse(res)) && res.object_key == stored.key->0
                    && res.prev_object_key is None && res.avatar_version == v as u32
                    && res.is_upload_required == !(stored.uploaded == Some(true)))
            } else {
                fails_unrecoverable(r, "[reserve_avatar] avatar version is invalid"@)
            },
        },
        !same_image(stored, image_hash@) ==> (r matches Ok(AvatarPlan::Advance { prev_key, prev_version })
            && prev_key == stored.key && prev_version == (match stored.version {
            Some(v) => v,
            None => 0i64,
        })),
{
    let same_hash = match (&stored.key, &stored.hash) {
        (Some(_), Some(h)) => bytes_eq(h, image_hash),
        _ => false,
    };
    let same_ext = match &stored.extension {
        Some(e) => crate::pattern::str_eq(e.as_str(), image_ext),
        None => false,
    };
    if same_hash && !same_ext {
        return Err(expected("error-invalid-image-extension"));
    }
    if same_hash {
        let object_key = match stored.key {
            Some(k) => k,
            None => return Err(unrecoverable("[reserve_avatar] pending avatar key is missing")),
        };
        let raw_version = match stored.version {
            Some(v) => v,
            None => return Err(unrecoverable("[reserve_avatar] avatar version is missing")),
        };
        if raw_version < 0 || raw_version > u32::MAX as i64 {
            return Err(unrecoverable("[reserve_avatar] avatar version is invalid"));
        }
        let uploaded = match stored.uploaded {
            Some(u) => u,
            None => false,
        };
        return Ok(
            AvatarPlan::Reuse(
                UserAvatarReservation {
                    object_key,
                    prev_object_key: None,
                    avatar_version: raw_version as u32,
                    is_upload_required: !uploaded,
                },
            ),
        );
    }
    let prev_version = match stored.version {
        Some(v) => v,
        None => 0,
    };
    Ok(AvatarPlan::Advance { prev_key: stored.key, prev_version })
}

/// The avatar columns a reservation of a new image writes.
#[derive(Debug)]
pub struct AvatarUpdate {
    pub key: String,
    pub uploaded: bool,
    pub version: i64,
    pub hash: Vec<u8>,
    pub extension: String,
}

/// Completes a reservation that advances past the stored avatar: given the
/// next version and the object key generated for it, the user row takes the
/// new key, version, image hash and extension with the upload still pending,
/// and the caller gets the new key and version, the previous key to remove,
/// and an upload to perform.
pub fn advance_avatar_reservation(
    prev_key: Option<String>,
    version: u32,
    object_key: String,
    image_hash: &[u8],
    image_ext: &str,
) -> (r: (AvatarUpdate, UserAvatarReservation))
    ensures
        r.0.key@ == object_key@,
        !r.0.uploaded,
        r.0.version == version as i64,
        r.0.hash@ == image_hash@,
        r.0.extension@ == image_ext@,
        r.1.object_key@ == object_key@,
        r.1.prev_object_key == prev_key,
        r.1.avatar_version == version,
        r.1.is_upload_required,
{
    let mut hash: Vec<u8> = Vec::new();
    let mut k: usize = 0;
    while k < image_hash.len()
        invariant
            k <= image_hash@.len(),
            hash@ == image_hash@.take(k as int),
        decreases image_hash@.len() - k,
    {
        hash.push(image_hash[k]);
        assert(image_hash@.take(k + 1) =~= image_hash@.take(k as int).push(image_hash@[k as int]));
        k += 1;
    }
    assert(image_hash@.take(image_hash@.len() as int) =~= image_hash@);
    let update = AvatarUpdate {
        key: object_key.clone(),
        uploaded: false,
        version: version as i64,
        hash,
        extension: String::from_str(image_ext),
    };
    let reservation = UserAvatarReservation {
        object_key,
        prev_object_key: prev_key,
        avatar_version: version,
        is_upload_required: true,
    };
    (update, reservation)
}

} // verus!
