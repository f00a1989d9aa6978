//! Derivations for the retrieval store: request URLs, the fixed
//! collection dimensionality, and the id under which a task's result
//! is recorded.

use vstd::prelude::*;

use crate::text::decimal_spec;
use crate::text::u64_to_string;

verus! {

/// The embedding dimensionality every collection is created with; it
/// matches the embedding model's output size.
pub const EMBEDDING_DIMENSION: u64 = 1536;

/// The base URL of a collection's own index host.
pub fn get_index_url(index_name: &str, project_id: &str, pinecone_region: &str) -> (r: String)
    ensures
        r@ == "https://"@ + index_name@ + "-"@ + project_id@ + ".svc."@ + pinecone_region@
            + ".pinecone.io"@,
{
    let mut r = String::new();
    r.append("https://");
    r.append(index_name);
    r.append("-");
    r.append(project_id);
    r.append(".svc.");
    r.append(pinecone_region);
    r.append(".pinecone.io");
    r
}

/// The base URL of the store's controller for a region.
pub fn get_controller_url(pinecone_region: &str) -> (r: String)
    ensures
        r@ == "https://controller."@ + pinecone_region@ + ".pinecone.io"@,
{
    let mut r = String::new();
    r.append("https://controller.");
    r.append(pinecone_region);
    r.append(".pinecone.io");
    r
}

/// Law: distinct tasks record their results under distinct ids, so a
/// result record is never overwritten by another task's upsert.
pub proof fn lemma_result_ids_distinct(a: u64, b: u64)
    requires
        a != b,
    ensures
        "result_"@ + decimal_spec(a as nat) != "result_"@ + decimal_spec(b as nat),
{
    let ra = "result_"@ + decimal_spec(a as nat);
    let rb = "result_"@ + decimal_spec(b as nat);
    if ra == rb {
        let p = "result_"@.len() as int;
        assert(decimal_spec(a as nat) =~= ra.subrange(p, ra.len() as int));
        assert(decimal_spec(b as nat) =~= rb.subrange(p, rb.len() as int));
        crate::text::lemma_decimal_injective(a as nat, b as nat);
    }
}

/// The id of the result record of a task: `result_` followed by the
/// task's id in decimal.
pub fn result_id_for(task_id: u64) -> (r: String)
    ensures
        r@ == "result_"@ + decimal_spec(task_id as nat),
{
    let mut r = String::new();
    r.append("result_");
    let digits = u64_to_string(task_id);
    r.append(digits.as_str());
    r
}

} // verus!
