use vstd::prelude::*;
use crate::decode::{decode_spec, views, Value, MAX_DEPTH};
use crate::error::Error;
use crate::key::split_spec;
use crate::meta::MetadataIndex;
use vstd::string::StringSliceAdditionalSpecFns;

verus! {

/// What the library needs from a transport to a node: the bytes stored
/// under a key, the submission of an encoded payload, and the raw metadata.
pub trait Backend {
    fn query_raw(&self, key: &[u8]) -> Result<Vec<u8>, Error>;

    fn submit(&self, payload: &[u8]) -> Result<(), Error>;

    fn metadata(&self) -> Result<Vec<u8>, Error>;
}

/// Resolves `path`, fetches the bytes stored under its key from `backend`
/// and decodes them as the item's value type. A path that does not resolve
/// fails as `resolve` does, before the backend is asked; a value returned
/// is the decoding of some bytes the backend handed back.
pub fn query<B: Backend>(index: &MetadataIndex, backend: &B, path: &str) -> (r: Result<Value, Error>)
    ensures
        index.key_spec(split_spec(path.spec_bytes())) matches Err(e) ==> r == Err::<Value, Error>(e),
        r is Ok ==> exists|raw: Seq<u8>|
            #[trigger] decode_spec(
                index.types@,
                index.value_ty_spec(split_spec(path.spec_bytes())),
                raw,
                0,
                MAX_DEPTH as nat,
            ) matches Ok((ns, _)) && ns == views(r->Ok_0.nodes@),
{
    let key = match index.resolve(path) {
        Ok(k) => k,
        Err(e) => {
            return Err(e);
        },
    };
    let raw = match backend.query_raw(key.as_slice()) {
        Ok(raw) => raw,
        Err(e) => {
            return Err(e);
        },
    };
    let r = index.decode_value(path, raw.as_slice());
    proof {
        if r is Ok {
            let w = raw@;
            assert(decode_spec(
                index.types@,
                index.value_ty_spec(split_spec(path.spec_bytes())),
                w,
                0,
                MAX_DEPTH as nat,
            ) matches Ok((ns, _)) && ns == views(r->Ok_0.nodes@));
        }
    }
    r
}

} // verus!
