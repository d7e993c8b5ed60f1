//! What one secret becomes in the cluster: its name, its namespaces and its
//! data, and the writes that put it there.
use crate::error::SyncError;
use crate::fields::FieldView;
use crate::payload::{parse_payload, payload_of, SecretPayload};
use crate::tags::{
    extract, routing_of, Routing, RoutingView, RunConfig, RunConfigView, SecretDescriptor,
    SecretDescriptorView,
};
use crate::text::texts;
use crate::transform::{data_of, restores, transform, DataMap};
use vstd::prelude::*;

verus! {

/// The API version of the resource that is written to the cluster.
pub const API_VERSION: &'static str = "v1";

/// The kind of the resource that is written to the cluster.
pub const KIND: &'static str = "Secret";

/// The field manager under which every write is made, so that repeated runs
/// converge on the fields they own and leave the fields of others alone.
pub const FIELD_MANAGER: &'static str = "myapp";

/// What a secret becomes in the cluster. It is derived from one secret, used
/// for the writes of that secret and then dropped.
#[derive(Clone, Debug, PartialEq, Eq)]
pub struct DestinationRecord {
    /// The name of the secret in the cluster.
    pub name: String,
    /// The namespaces that receive the secret, in order. A namespace that is
    /// listed twice is written twice.
    pub namespaces: Vec<String>,
    /// The data of the secret.
    pub data: DataMap,
}

/// A destination record as texts.
pub struct DestinationRecordView {
    pub name: Seq<char>,
    pub namespaces: Seq<Seq<char>>,
    pub data: Seq<FieldView>,
}

impl View for DestinationRecord {
    type V = DestinationRecordView;

    open spec fn view(&self) -> DestinationRecordView {
        DestinationRecordView {
            name: self.name@,
            namespaces: texts(self.namespaces@),
            data: self.data@,
        }
    }
}

/// One write to the cluster: the secret `name` in `namespace` is to hold
/// `data`, merged on the server under the field manager of this library.
#[derive(Clone, Debug, PartialEq, Eq)]
pub struct ApplyRequest {
    pub namespace: String,
    pub name: String,
    pub data: DataMap,
}

/// An apply request as texts.
pub struct ApplyRequestView {
    pub namespace: Seq<char>,
    pub name: Seq<char>,
    pub data: Seq<FieldView>,
}

impl View for ApplyRequest {
    type V = ApplyRequestView;

    open spec fn view(&self) -> ApplyRequestView {
        ApplyRequestView { namespace: self.namespace@, name: self.name@, data: self.data@ }
    }
}

/// The views of a sequence of requests, in the same order.
pub open spec fn request_views(requests: Seq<ApplyRequest>) -> Seq<ApplyRequestView> {
    Seq::new(requests.len(), |i: int| requests[i]@)
}

/// The record of a routed secret with the payload `payload`.
pub open spec fn record_with(routing: RoutingView, payload: Seq<FieldView>) -> DestinationRecordView {
    DestinationRecordView {
        name: routing.name,
        namespaces: routing.namespaces,
        data: data_of(payload, routing.filename),
    }
}

/// The record of `secret` with the payload `payload`, where `None` stands for
/// a payload that could not be read.
///
/// A secret without the name tag or the namespace tag fails with
/// `MissingTag`, whatever its payload. A routed secret without a readable
/// payload fails with `MalformedPayload`.
pub open spec fn record_of(
    secret: SecretDescriptorView,
    config: RunConfigView,
    payload: Option<Seq<FieldView>>,
) -> Result<DestinationRecordView, SyncError> {
    match routing_of(secret, config) {
        Err(e) => Err(e),
        Ok(routing) => match payload {
            Some(payload) => Ok(record_with(routing, payload)),
            None => Err(SyncError::MalformedPayload),
        },
    }
}

/// The writes that a record asks for: one per namespace, in the order of the
/// namespaces, each with the name and the data of the record.
pub open spec fn requests_of(record: DestinationRecordView) -> Seq<ApplyRequestView> {
    Seq::new(
        record.namespaces.len(),
        |i: int|
            ApplyRequestView {
                namespace: record.namespaces[i],
                name: record.name,
                data: record.data,
            },
    )
}

/// The view of the outcome of deriving a record.
pub open spec fn record_result_view(r: Result<DestinationRecord, SyncError>) -> Result<
    DestinationRecordView,
    SyncError,
> {
    match r {
        Ok(record) => Ok(record@),
        Err(e) => Err(e),
    }
}

/// Puts a routing and a payload together: the payload is written as one file
/// where the routing names a file, field by field where it does not.
pub fn assemble(routing: Routing, payload: SecretPayload) -> (record: DestinationRecord)
    ensures
        record@ == record_with(routing@, payload@),
        restores(record@.data, payload@, routing@.filename),
{
    let Routing { name, namespaces, filename } = routing;
    let data = transform(payload, filename);
    DestinationRecord { name, namespaces, data }
}

/// Derives what `secret` becomes in the cluster from its tags and from the
/// text of its payload.
///
/// Fails with `MissingTag` where the secret lacks the name tag or the
/// namespace tag, and otherwise with `MalformedPayload` where the text is not
/// a JSON object of string fields.
pub fn derive_record(secret: &SecretDescriptor, config: &RunConfig, payload_text: &str) -> (record:
    Result<DestinationRecord, SyncError>)
    ensures
        record_result_view(record) == record_of(secret@, config@, payload_of(payload_text@)),
{
    let routing = match extract(secret, config) {
        Ok(routing) => routing,
        Err(e) => {
            return Err(e);
        },
    };
    match parse_payload(payload_text) {
        Ok(payload) => Ok(assemble(routing, payload)),
        Err(e) => Err(e),
    }
}

impl DestinationRecord {
    /// The write for the namespace at position `i`.
    pub fn request(&self, i: usize) -> (request: ApplyRequest)
        requires
            i < self@.namespaces.len(),
        ensures
            request@ == requests_of(self@)[i as int],
    {
        ApplyRequest {
            namespace: self.namespaces[i].clone(),
            name: self.name.clone(),
            data: self.data.clone(),
        }
    }

    /// The writes that the record asks for: one per namespace, in the order
    /// of the namespaces.
    pub fn requests(&self) -> (requests: Vec<ApplyRequest>)
        ensures
            request_views(requests@) == requests_of(self@),
    {
        let mut requests: Vec<ApplyRequest> = Vec::new();
        let n = self.namespaces.len();
        let mut i: usize = 0;
        while i < n
            invariant
                i <= n,
                n == self@.namespaces.len(),
                request_views(requests@) == requests_of(self@).take(i as int),
            decreases n - i,
        {
            let request = self.request(i);
            let ghost before = requests@;
            requests.push(request);
            proof {
                assert(request_views(requests@) == request_views(before).push(request@));
            }
            i = i + 1;
        }
        proof {
            assert(requests_of(self@).take(n as int) == requests_of(self@));
        }
        requests
    }
}

} // verus!
