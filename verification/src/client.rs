//! Request builders for remote consumers of the engine: client
//! configuration, ingestion requests, branching requests and billing
//! requests.  These are plain data carriers; the network transport around
//! them lives outside the library.

use vstd::prelude::*;
use crate::model::{CodeEntityKind, Language, Visibility};

verus! {

/// Builds the configuration of a remote client.
#[derive(Debug)]
pub struct OnyxClientBuilder {
    pub base_url: Option<String>,
    pub api_key: Option<String>,
    pub timeout_ms: Option<u64>,
}

impl OnyxClientBuilder {
    /// An empty builder.
    pub fn new() -> (r: Self)
        ensures
            r.base_url is None,
            r.api_key is None,
            r.timeout_ms is None,
    {
        OnyxClientBuilder { base_url: None, api_key: None, timeout_ms: None }
    }

    /// Sets the base URL.
    pub fn base_url(self, url: String) -> (r: Self)
        ensures
            r == (OnyxClientBuilder { base_url: Some(url), ..self }),
    {
        OnyxClientBuilder { base_url: Some(url), ..self }
    }

    /// Sets the API key.
    pub fn api_key(self, key: String) -> (r: Self)
        ensures
            r == (OnyxClientBuilder { api_key: Some(key), ..self }),
    {
        OnyxClientBuilder { api_key: Some(key), ..self }
    }

    /// Sets the request timeout, in milliseconds.
    pub fn timeout(self, timeout_ms: u64) -> (r: Self)
        ensures
            r == (OnyxClientBuilder { timeout_ms: Some(timeout_ms), ..self }),
    {
        OnyxClientBuilder { timeout_ms: Some(timeout_ms), ..self }
    }
}

/// A request to ingest one code unit.
#[derive(Debug)]
pub struct IngestCodeUnitRequest {
    pub name: String,
    pub content: String,
    pub kind: CodeEntityKind,
    pub language: Option<Language>,
    pub file_path: String,
    pub line_range: Option<(usize, usize)>,
    pub signature: Option<String>,
    pub visibility: Option<Visibility>,
    pub module_segments: Vec<String>,
    pub commit_id: Option<String>,
    pub branch: Option<String>,
}

impl IngestCodeUnitRequest {
    /// A request for a unit with the given name, content, kind, language
    /// and path.
    pub fn new(
        name: String,
        content: String,
        kind: CodeEntityKind,
        language: Language,
        file_path: String,
    ) -> (r: Self)
        ensures
            r.name == name,
            r.content == content,
            r.kind == kind,
            r.language == Some(language),
            r.file_path == file_path,
            r.line_range is None,
            r.signature is None,
            r.visibility is None,
            r.module_segments@.len() == 0,
            r.commit_id is None,
            r.branch is None,
    {
        IngestCodeUnitRequest {
            name,
            content,
            kind,
            language: Some(language),
            file_path,
            line_range: None,
            signature: None,
            visibility: None,
            module_segments: Vec::new(),
            commit_id: None,
            branch: None,
        }
    }

    /// Replaces the language.
    pub fn language(self, language: Language) -> (r: Self)
        ensures
            r == (IngestCodeUnitRequest { language: Some(language), ..self }),
    {
        IngestCodeUnitRequest { language: Some(language), ..self }
    }

    /// Sets the line range.
    pub fn line_range(self, start: usize, end: usize) -> (r: Self)
        ensures
            r == (IngestCodeUnitRequest { line_range: Some((start, end)), ..self }),
    {
        IngestCodeUnitRequest { line_range: Some((start, end)), ..self }
    }

    /// Sets the signature.
    pub fn signature(self, signature: String) -> (r: Self)
        ensures
            r == (IngestCodeUnitRequest { signature: Some(signature), ..self }),
    {
        IngestCodeUnitRequest { signature: Some(signature), ..self }
    }

    /// Sets the visibility.
    pub fn visibility(self, visibility: Visibility) -> (r: Self)
        ensures
            r == (IngestCodeUnitRequest { visibility: Some(visibility), ..self }),
    {
        IngestCodeUnitRequest { visibility: Some(visibility), ..self }
    }

    /// Sets the module path segments.
    pub fn modules(self, module_segments: Vec<String>) -> (r: Self)
        ensures
            r == (IngestCodeUnitRequest { module_segments, ..self }),
    {
        IngestCodeUnitRequest { module_segments, ..self }
    }

    /// Sets the commit id.
    pub fn commit_id(self, commit_id: String) -> (r: Self)
        ensures
            r == (IngestCodeUnitRequest { commit_id: Some(commit_id), ..self }),
    {
        IngestCodeUnitRequest { commit_id: Some(commit_id), ..self }
    }

    /// Sets the branch name.
    pub fn branch(self, branch: String) -> (r: Self)
        ensures
            r == (IngestCodeUnitRequest { branch: Some(branch), ..self }),
    {
        IngestCodeUnitRequest { branch: Some(branch), ..self }
    }
}

/// A request to ingest a whole codebase.
#[derive(Debug)]
pub struct IngestCodebaseRequest {
    pub units: Vec<IngestCodeUnitRequest>,
    pub detect_relationships: bool,
}

/// A request to create a branch.
#[derive(Debug)]
pub struct CreateBranchRequest {
    pub name: String,
    pub base_version: u64,
}

/// A request to merge one branch into another.
#[derive(Debug)]
pub struct MergeBranchRequest {
    pub source: String,
    pub target: String,
}

// ---------------------------------------------------------------------------
// Billing requests
// ---------------------------------------------------------------------------

/// A request to open a checkout session with the billing collaborator.
#[derive(Debug)]
pub struct CheckoutSessionRequest {
    pub customer_email: Option<String>,
    pub customer_id: Option<String>,
    pub price_id: Option<String>,
    pub success_url: Option<String>,
    pub cancel_url: Option<String>,
    pub reference_id: Option<String>,
    pub metadata: Vec<(String, String)>,
}

impl CheckoutSessionRequest {
    /// An empty checkout request.
    pub fn new() -> (r: Self)
        ensures
            r.customer_email is None,
            r.customer_id is None,
            r.price_id is None,
            r.success_url is None,
            r.cancel_url is None,
            r.reference_id is None,
            r.metadata@.len() == 0,
    {
        CheckoutSessionRequest {
            customer_email: None,
            customer_id: None,
            price_id: None,
            success_url: None,
            cancel_url: None,
            reference_id: None,
            metadata: Vec::new(),
        }
    }

    /// Sets the customer email.
    pub fn customer_email(self, email: String) -> (r: Self)
        ensures
            r == (CheckoutSessionRequest { customer_email: Some(email), ..self }),
    {
        CheckoutSessionRequest { customer_email: Some(email), ..self }
    }

    /// Sets the customer id.
    pub fn customer_id(self, id: String) -> (r: Self)
        ensures
            r == (CheckoutSessionRequest { customer_id: Some(id), ..self }),
    {
        CheckoutSessionRequest { customer_id: Some(id), ..self }
    }

    /// Sets the price id.
    pub fn price_id(self, id: String) -> (r: Self)
        ensures
            r == (CheckoutSessionRequest { price_id: Some(id), ..self }),
    {
        CheckoutSessionRequest { price_id: Some(id), ..self }
    }

    /// Sets the success redirect URL.
    pub fn success_url(self, url: String) -> (r: Self)
        ensures
            r == (CheckoutSessionRequest { success_url: Some(url), ..self }),
    {
        CheckoutSessionRequest { success_url: Some(url), ..self }
    }

    /// Sets the cancel redirect URL.
    pub fn cancel_url(self, url: String) -> (r: Self)
        ensures
            r == (CheckoutSessionRequest { cancel_url: Some(url), ..self }),
    {
        CheckoutSessionRequest { cancel_url: Some(url), ..self }
    }

    /// Sets the client reference id.
    pub fn reference_id(self, id: String) -> (r: Self)
        ensures
            r == (CheckoutSessionRequest { reference_id: Some(id), ..self }),
    {
        CheckoutSessionRequest { reference_id: Some(id), ..self }
    }

    /// Appends a metadata entry.
    pub fn metadata(self, key: String, value: String) -> (r: Self)
        ensures
            r.metadata@ == self.metadata@.push((key, value)),
            r.customer_email == self.customer_email,
            r.customer_id == self.customer_id,
            r.price_id == self.price_id,
            r.success_url == self.success_url,
            r.cancel_url == self.cancel_url,
            r.reference_id == self.reference_id,
    {
        let mut metadata = self.metadata;
        metadata.push((key, value));
        CheckoutSessionRequest { metadata, ..self }
    }
}

/// What the billing collaborator answers a checkout request with.
#[derive(Debug)]
pub struct CheckoutSessionResponse {
    pub session_id: String,
    pub url: Option<String>,
}

/// A request to open a billing portal session.
#[derive(Debug)]
pub struct BillingPortalRequest {
    pub customer_id: String,
    pub return_url: Option<String>,
}

impl BillingPortalRequest {
    /// A portal request for a customer.
    pub fn new(customer_id: String) -> (r: Self)
        ensures
            r.customer_id == customer_id,
            r.return_url is None,
    {
        BillingPortalRequest { customer_id, return_url: None }
    }

    /// Sets the return URL.
    pub fn return_url(self, url: String) -> (r: Self)
        ensures
            r == (BillingPortalRequest { return_url: Some(url), ..self }),
    {
        BillingPortalRequest { return_url: Some(url), ..self }
    }
}

/// What the billing collaborator answers a portal request with.
#[derive(Debug)]
pub struct BillingPortalResponse {
    pub url: String,
}

} // verus!
