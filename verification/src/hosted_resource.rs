//! Bounded reads of resources alone.

use crate::diagnostics::{CatalogError, OperationResult};
use crate::hosted_mutation::{fault, fault_of, CatalogFault};
use crate::hosted_query::CompiledCatalog;
use crate::text::{chars_of, same_text, split_on, split_text, texts};
use vstd::prelude::*;
use vstd::utf8::encode_utf8;

verus! {

pub const MAX_HOSTED_RESOURCE_DOCUMENTS: usize = 2_000;

pub const MAX_HOSTED_RESOURCE_BYTES: u64 = 33_554_432;

/// A resource document at its path.
#[derive(Debug)]
pub struct HostedResource {
    pub path: String,
    pub document: String,
}

/// The bytes of the documents of resources.
pub open spec fn resource_bytes(resources: Seq<HostedResource>) -> int
    decreases resources.len(),
{
    if resources.len() == 0 {
        0
    } else {
        resource_bytes(resources.drop_last()) + encode_utf8(resources.last().document@).len()
    }
}

proof fn lemma_resource_bytes(resources: Seq<HostedResource>, count: int)
    requires
        0 <= count <= resources.len(),
    ensures
        0 <= resource_bytes(resources.take(count)) <= resource_bytes(resources),
    decreases resources.len(),
{
    if count < resources.len() {
        lemma_resource_bytes(resources.drop_last(), count);
        assert(resources.drop_last().take(count) =~= resources.take(count));
    } else {
        assert(resources.take(count) =~= resources);
        if resources.len() > 0 {
            lemma_resource_bytes(resources.drop_last(), resources.len() - 1);
            assert(resources.drop_last().take(resources.len() - 1) =~= resources.drop_last());
        }
    }
}

/// Whether a path leads out of the place that it is relative to: it is absolute,
/// or goes up.
pub open spec fn escapes(path: Seq<char>) -> bool {
    (path.len() > 0 && path[0] == '/') || split_on(path, '/').contains(".."@)
}

pub fn escapes_stage(path: &str) -> (result: bool)
    ensures
        result == escapes(path@),
{
    let chars = chars_of(path);
    if chars.len() > 0 && chars[0] == '/' {
        return true;
    }
    let parts = split_text(path, '/');
    let ghost models = split_on(path@, '/');
    let mut i: usize = 0;
    while i < parts.len()
        invariant
            i <= parts@.len(),
            models == texts(parts@),
            models == split_on(path@, '/'),
            forall|k: int| 0 <= k < i ==> (#[trigger] models[k]) != ".."@,
        decreases parts@.len() - i,
    {
        proof {
            assert(models[i as int] == parts@[i as int]@);
        }
        if same_text(parts[i].as_str(), "..") {
            return true;
        }
        i = i + 1;
    }
    false
}

/// The operations that read resources.
pub open spec fn reads_resources(operation: Seq<char>) -> bool {
    operation == "read_type"@ || operation == "list_views"@ || operation == "read_view_source"@
}

/// What is wrong with a resource read: the operation, its budgets, or a path.
pub open spec fn resource_read_fault(operation: Seq<char>, resources: Seq<HostedResource>) -> Option<
    CatalogFault,
> {
    if !reads_resources(operation) {
        Some(
            fault(
                "unsupported_hosted_resource_read"@,
                "The operation is not in the closed hosted resource-read set."@,
            ),
        )
    } else if resources.len() > MAX_HOSTED_RESOURCE_DOCUMENTS {
        Some(
            fault(
                "hosted_resource_count_budget_exceeded"@,
                "The hosted resource read exceeds its document-count budget."@,
            ),
        )
    } else if resource_bytes(resources) > MAX_HOSTED_RESOURCE_BYTES {
        Some(
            fault(
                "hosted_resource_byte_budget_exceeded"@,
                "The hosted resource read exceeds its exact-byte budget."@,
            ),
        )
    } else if exists|i: int| 0 <= i < resources.len() && escapes((#[trigger] resources[i]).path@) {
        Some(
            fault(
                "invalid_resource_path"@,
                "A hosted resource path escapes its disposable stage."@,
            ),
        )
    } else {
        None
    }
}

fn fits_bytes(resources: &Vec<HostedResource>) -> (result: bool)
    ensures
        result == (resource_bytes(resources@) <= MAX_HOSTED_RESOURCE_BYTES),
{
    let mut total: u64 = 0;
    let mut i: usize = 0;
    proof {
        assert(resources@.take(0) =~= Seq::empty());
    }
    while i < resources.len()
        invariant
            i <= resources@.len(),
            total == resource_bytes(resources@.take(i as int)),
            total <= MAX_HOSTED_RESOURCE_BYTES,
        decreases resources@.len() - i,
    {
        let bytes: u64 = resources[i].document.as_str().as_bytes().len() as u64;
        proof {
            let next = resources@.take(i + 1);
            assert(next.drop_last() =~= resources@.take(i as int));
            assert(next.last() == resources@[i as int]);
            lemma_resource_bytes(resources@, i + 1);
        }
        if bytes > MAX_HOSTED_RESOURCE_BYTES - total {
            return false;
        }
        total = total + bytes;
        i = i + 1;
    }
    proof {
        assert(resources@.take(i as int) =~= resources@);
    }
    true
}

impl CompiledCatalog {
    /// Checks a resource read before its resources are staged.
    pub fn check_hosted_resource_read(
        &self,
        operation: &str,
        resources: &Vec<HostedResource>,
    ) -> (result: Result<(), CatalogError>)
        ensures
            match result {
                Ok(_) => resource_read_fault(operation@, resources@) is None,
                Err(error) => resource_read_fault(operation@, resources@) == Some(
                    fault_of(error),
                ),
            },
    {
        if !same_text(operation, "read_type") && !same_text(operation, "list_views")
            && !same_text(operation, "read_view_source") {
            return Err(
                CatalogError::new(
                    "unsupported_hosted_resource_read",
                    "The operation is not in the closed hosted resource-read set.",
                ),
            );
        }
        if resources.len() > MAX_HOSTED_RESOURCE_DOCUMENTS {
            return Err(
                CatalogError::new(
                    "hosted_resource_count_budget_exceeded",
                    "The hosted resource read exceeds its document-count budget.",
                ),
            );
        }
        if !fits_bytes(resources) {
            return Err(
                CatalogError::new(
                    "hosted_resource_byte_budget_exceeded",
                    "The hosted resource read exceeds its exact-byte budget.",
                ),
            );
        }
        let mut i: usize = 0;
        while i < resources.len()
            invariant
                i <= resources@.len(),
                reads_resources(operation@),
                resources@.len() <= MAX_HOSTED_RESOURCE_DOCUMENTS,
                resource_bytes(resources@) <= MAX_HOSTED_RESOURCE_BYTES,
                forall|k: int| 0 <= k < i ==> !escapes((#[trigger] resources@[k]).path@),
            decreases resources@.len() - i,
        {
            if escapes_stage(resources[i].path.as_str()) {
                return Err(
                    CatalogError::new(
                        "invalid_resource_path",
                        "A hosted resource path escapes its disposable stage.",
                    ),
                );
            }
            i = i + 1;
        }
        Ok(())
    }

    /// The result of a resource read on its staged resources.
    pub fn execute_hosted_resource_read(
        &self,
        operation: &str,
        resources: &Vec<HostedResource>,
        staged: OperationResult,
    ) -> (result: Result<OperationResult, CatalogError>)
        ensures
            match result {
                Ok(found) => resource_read_fault(operation@, resources@) is None && found
                    == staged,
                Err(error) => resource_read_fault(operation@, resources@) == Some(
                    fault_of(error),
                ),
            },
    {
        match self.check_hosted_resource_read(operation, resources) {
            Ok(_) => Ok(staged),
            Err(error) => Err(error),
        }
    }
}

} // verus!
