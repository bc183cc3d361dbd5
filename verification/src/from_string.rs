//! Reading the typed values that a request names in text.

use vstd::prelude::*;
use vstd::utf8::encode_utf8;
use vstd::string::StringExecFns;
use crate::errors::{InputFault, ServerError};
use crate::hex::{from_hex, is_hex};
use crate::nodehash::{HgChangesetId, HgFileNodeId, HgNodeHash, Sha256};
use crate::path::{has_forbidden_byte, path_elements, MPath, PathError};

verus! {

/// Whether text is a hash of `digits` hexadecimal digits.
pub open spec fn is_hash_text(s: Seq<char>, digits: nat) -> bool {
    encode_utf8(s).len() == digits && is_hex(encode_utf8(s))
}

/// The refusal of an input that is no hash.
pub open spec fn bad_hash<T>(r: Result<T, ServerError>, input: Seq<char>) -> bool {
    r matches Err(ServerError::InvalidInput(s, f)) && s@ == input && f == Some(InputFault::BadHash)
}

/// The path that the text names. Text that is no path is refused as
/// invalid input, with the fault.
pub fn get_mpath(path: String) -> (r: Result<MPath, ServerError>)
    ensures
        r is Ok <==> !has_forbidden_byte(encode_utf8(path@)) && path_elements(
            encode_utf8(path@),
        ).len() > 0,
        r matches Ok(p) ==> p.wf() && p@ == path_elements(encode_utf8(path@)),
        r is Err ==> (r matches Err(ServerError::InvalidInput(s, f)) && s@ == path@ && f == Some(
            InputFault::BadPath(
                if has_forbidden_byte(encode_utf8(path@)) {
                    PathError::ForbiddenByte
                } else {
                    PathError::Empty
                },
            ),
        )),
{
    match MPath::new(path.as_str().as_bytes()) {
        Ok(p) => Ok(p),
        Err(e) => Err(ServerError::InvalidInput(path, Some(InputFault::BadPath(e)))),
    }
}

/// The changeset that 40 hexadecimal digits name. Any other text is
/// refused as invalid input.
pub fn get_changeset_id(changesetid: String) -> (r: Result<HgChangesetId, ServerError>)
    ensures
        r is Ok <==> is_hash_text(changesetid@, 40),
        r matches Ok(id) ==> id@ == from_hex(encode_utf8(changesetid@)),
        r is Err ==> bad_hash(r, changesetid@),
{
    match HgChangesetId::from_str(changesetid.as_str()) {
        Some(id) => Ok(id),
        None => Err(ServerError::InvalidInput(changesetid, Some(InputFault::BadHash))),
    }
}

/// The hash that 40 hexadecimal digits write. Any other text is refused
/// as invalid input.
pub fn get_nodehash(hash: &str) -> (r: Result<HgNodeHash, ServerError>)
    ensures
        r is Ok <==> is_hash_text(hash@, 40),
        r matches Ok(h) ==> h@ == from_hex(encode_utf8(hash@)),
        r is Err ==> bad_hash(r, hash@),
{
    match HgNodeHash::from_str(hash) {
        Some(h) => Ok(h),
        None => Err(ServerError::InvalidInput(String::from_str(hash), Some(InputFault::BadHash))),
    }
}

/// The file version that 40 hexadecimal digits name. Any other text is
/// refused as invalid input.
pub fn get_filenode_id(hash: &str) -> (r: Result<HgFileNodeId, ServerError>)
    ensures
        r is Ok <==> is_hash_text(hash@, 40),
        r matches Ok(id) ==> id@ == from_hex(encode_utf8(hash@)),
        r is Err ==> bad_hash(r, hash@),
{
    match get_nodehash(hash) {
        Ok(h) => Ok(HgFileNodeId::new(h)),
        Err(e) => Err(e),
    }
}

/// The SHA-256 digest that 64 hexadecimal digits write. Any other text is
/// refused as invalid input.
pub fn get_sha256_oid(oid: String) -> (r: Result<Sha256, ServerError>)
    ensures
        r is Ok <==> is_hash_text(oid@, 64),
        r matches Ok(h) ==> h@ == from_hex(encode_utf8(oid@)),
        r is Err ==> bad_hash(r, oid@),
{
    match Sha256::from_str(oid.as_str()) {
        Some(h) => Ok(h),
        None => Err(ServerError::InvalidInput(oid, Some(InputFault::BadHash))),
    }
}

} // verus!
