//! Domain separation for the mdoc CBOR envelope. Serialization and COSE
//! signing run in the host application through the CBOR and P-256
//! libraries; this crate pins down the domain tag those envelopes carry.
use vstd::prelude::*;
use vstd::string::StringExecFns;

verus! {

/// CBOR encoding conventions of this credential system.
pub struct SpookyCBOR;

impl SpookyCBOR {
    /// The domain tag of an mdoc element of a document type.
    pub fn mdoc_domain_tag(doc_type: &str) -> (r: String)
        ensures
            r@ == "SpookyID.mdoc."@ + doc_type@ + ".v1"@,
    {
        let mut tag = String::from_str("SpookyID.mdoc.");
        tag.append(doc_type);
        tag.append(".v1");
        tag
    }
}

} // verus!
