//! The provider's records, zones and response envelopes.

use vstd::prelude::*;
use crate::domain::{labels_of, Fqdn, NameError};

verus! {

/// The provider's opaque identifier of a record.
#[derive(Debug, Clone)]
pub struct RecordId(pub String);

/// The provider's opaque identifier of a zone.
#[derive(Debug, Clone)]
pub struct ZoneId(pub String);

impl RecordId {
    pub fn as_str(&self) -> (r: &str)
        ensures
            r@ == self.0@,
    {
        self.0.as_str()
    }
}

impl ZoneId {
    pub fn as_str(&self) -> (r: &str)
        ensures
            r@ == self.0@,
    {
        self.0.as_str()
    }
}

/// The ownership marker for the controller named `owner`.
pub open spec fn owner_tag_spec(owner: Seq<char>) -> Seq<char> {
    "managed-by:"@ + owner
}

/// Builds the ownership marker `managed-by:<controller_name>`.
pub fn owner_tag(controller_name: &str) -> (r: String)
    ensures
        r@ == owner_tag_spec(controller_name@),
{
    String::from_str("managed-by:").concat(controller_name)
}

/// A record as the provider holds it.
#[derive(Debug)]
pub struct Record {
    pub id: RecordId,
    pub fqdn: Fqdn,
    pub record_type: String,
    pub rdata: String,
    pub comment: Option<String>,
    pub tags: Vec<String>,
    pub ttl: u32,
}

/// The record carries the marker of `owner`, as a tag or as its comment.
pub open spec fn managed_by(r: Record, owner: Seq<char>) -> bool {
    ||| exists|i: int| 0 <= i < r.tags@.len() && r.tags@[i]@ == owner_tag_spec(owner)
    ||| (r.comment is Some && r.comment.unwrap()@ == owner_tag_spec(owner))
}

impl Record {
    /// Builds a record from the provider's fields; the name must be a valid
    /// dot-separated domain name.
    pub fn from_parts(
        id: String,
        name: &str,
        record_type: String,
        content: String,
        comment: Option<String>,
        tags: Vec<String>,
        ttl: u32,
    ) -> (r: Result<Record, NameError>)
        ensures
            r is Ok <==> labels_of(name@).is_some(),
            r matches Ok(rec) ==> ({
                &&& labels_of(name@) == Some(rec.fqdn@)
                &&& rec.id.0 == id
                &&& rec.record_type == record_type
                &&& rec.rdata == content
                &&& rec.comment == comment
                &&& rec.tags == tags
                &&& rec.ttl == ttl
            }),
    {
        match Fqdn::parse(name) {
            Ok(fqdn) => Ok(Record { id: RecordId(id), fqdn, record_type, rdata: content, comment, tags, ttl }),
            Err(e) => Err(e),
        }
    }

    /// Whether the record carries the ownership marker of `controller_name`,
    /// in its tags or as its comment.
    pub fn is_managed_by(&self, controller_name: &str) -> (r: bool)
        ensures
            r == managed_by(*self, controller_name@),
    {
        let tag = owner_tag(controller_name);
        let mut i: usize = 0;
        while i < self.tags.len()
            invariant
                i <= self.tags.len(),
                tag@ == owner_tag_spec(controller_name@),
                forall|k: int| 0 <= k < i ==> self.tags@[k]@ != tag@,
            decreases self.tags.len() - i,
        {
            if self.tags[i] == tag {
                return true;
            }
            i = i + 1;
        }
        match &self.comment {
            Some(c) => *c == tag,
            None => false,
        }
    }
}

/// A zone of the provider: its identifier and its apex name.
#[derive(Debug, Clone)]
pub struct Zone {
    pub id: ZoneId,
    pub fqdn: Fqdn,
}

impl Zone {
    /// Builds a zone from the provider's fields; the name must be valid.
    pub fn from_parts(id: String, name: &str) -> (r: Result<Zone, NameError>)
        ensures
            r is Ok <==> labels_of(name@).is_some(),
            r matches Ok(z) ==> labels_of(name@) == Some(z.fqdn@) && z.id.0 == id,
    {
        match Fqdn::parse(name) {
            Ok(fqdn) => Ok(Zone { id: ZoneId(id), fqdn }),
            Err(e) => Err(e),
        }
    }
}

/// An error reported by the provider: a numeric code and a message.
#[derive(Debug, Clone)]
pub struct ApiError {
    pub code: u32,
    pub message: String,
}

/// An informational message of the provider.
#[derive(Debug, Clone)]
pub struct Message {
    pub code: u32,
    pub message: String,
}

/// The provider's response envelope: a payload, or the errors it reported.
#[derive(Debug)]
pub enum ApiResult<T> {
    Success { result: T, messages: Vec<Message> },
    Error { errors: Vec<ApiError> },
}

/// An envelope that breaks the provider's own rules.
#[derive(Debug, Clone, Copy, PartialEq, Eq, Structural)]
pub enum EnvelopeError {
    /// `success` is set but no payload came with it.
    MissingResult,
    /// `success` is not set but the error list is empty.
    MissingErrors,
}

impl<T> ApiResult<T> {
    /// An error envelope carries at least one error.
    pub open spec fn wf(&self) -> bool {
        self matches ApiResult::Error { errors } ==> errors@.len() > 0
    }

    /// Builds the envelope from its decoded fields, refusing a success
    /// without payload and a failure without errors.
    pub fn from_envelope(
        success: bool,
        result: Option<T>,
        errors: Vec<ApiError>,
        messages: Vec<Message>,
    ) -> (r: Result<ApiResult<T>, EnvelopeError>)
        ensures
            success && result is None <==> r == Err::<ApiResult<T>, _>(EnvelopeError::MissingResult),
            !success && errors@.len() == 0 <==> r == Err::<ApiResult<T>, _>(EnvelopeError::MissingErrors),
            success && result is Some ==> r == Ok::<_, EnvelopeError>(
                ApiResult::Success { result: result.unwrap(), messages },
            ),
            !success && errors@.len() > 0 ==> r == Ok::<_, EnvelopeError>(ApiResult::<T>::Error { errors }),
            r matches Ok(a) ==> a.wf(),
    {
        if success {
            match result {
                Some(result) => Ok(ApiResult::Success { result, messages }),
                None => Err(EnvelopeError::MissingResult),
            }
        } else if errors.len() == 0 {
            Err(EnvelopeError::MissingErrors)
        } else {
            Ok(ApiResult::Error { errors })
        }
    }

    /// The payload of a success, or the last error of a failure; the
    /// informational messages are dropped.
    pub fn into_result(self) -> (r: Result<T, ApiError>)
        requires
            self.wf(),
        ensures
            self matches ApiResult::Success { result, .. } ==> r == Ok::<T, ApiError>(result),
            self matches ApiResult::Error { errors } ==> r == Err::<T, ApiError>(errors@.last()),
    {
        match self {
            ApiResult::Success { result, messages: _ } => Ok(result),
            ApiResult::Error { mut errors } => {
                let e = errors.pop();
                Err(e.unwrap())
            },
        }
    }
}

/// Whether orphaned records that this controller owns are deleted.
#[derive(Debug, Clone, Copy, PartialEq, Eq, Structural)]
pub enum Mode {
    /// Owned records with no desired entry are kept.
    Upsert,
    /// Owned records with no desired entry are deleted.
    Delete,
}

impl Default for Mode {
    fn default() -> (r: Mode)
        ensures
            r == Mode::Upsert,
    {
        Mode::Upsert
    }
}

} // verus!
