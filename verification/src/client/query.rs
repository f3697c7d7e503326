//! Queries on a client.

use vstd::prelude::*;
use vstd::string::*;
use crate::base::{EpistemicReader, ResourceId};
use crate::client::error::{HistoryEntry, VantageError};
use crate::client::VantageClient;

verus! {

/// A query of one resource.
pub struct QueryBuilder<'a> {
    client: &'a VantageClient,
    resource_id: String,
}

impl<'a> QueryBuilder<'a> {
    pub closed spec fn spec_client(&self) -> VantageClient {
        *self.client
    }

    pub closed spec fn spec_resource(&self) -> String {
        self.resource_id
    }

    pub fn new(client: &'a VantageClient) -> (r: Self)
        ensures
            r.spec_client() == *client,
            r.spec_resource()@ == Seq::<char>::empty(),
    {
        Self { client, resource_id: String::new() }
    }

    /// The query of resource `id`.
    pub fn resource(self, id: &str) -> (r: Self)
        ensures
            r.spec_client() == self.spec_client(),
            r.spec_resource()@ == id@,
    {
        let mut q = self;
        q.resource_id = String::from_str(id);
        q
    }

    /// Whether the resource exists.
    pub fn unit_exists(self) -> (r: Result<bool, VantageError>)
        requires
            self.spec_client().wf(),
        ensures
            self.spec_client().spec_config().mode is Embedded
                ==> r == Ok::<bool, VantageError>(self.spec_client().spec_runtime().spec_read(self.spec_resource()@) is Some),
            self.spec_client().spec_config().mode is Remote ==> r is Err,
    {
        let id = ResourceId(self.resource_id);
        self.client.unit_exists(&id)
    }

    /// The current content of the resource.
    pub fn current(self) -> (r: Result<Option<String>, VantageError>)
        requires
            self.spec_client().wf(),
        ensures
            self.spec_client().spec_config().mode is Embedded
                ==> (r matches Ok(c) && crate::base::opt_view(c) == self.spec_client().spec_runtime().spec_read(self.spec_resource()@)),
            self.spec_client().spec_config().mode is Remote ==> r is Err,
    {
        let id = ResourceId(self.resource_id);
        self.client.read_unit(&id)
    }

    /// The revisions of the resource.
    pub fn history(self) -> (r: Result<Vec<HistoryEntry>, VantageError>)
        requires
            self.spec_client().wf(),
        ensures
            self.spec_client().spec_config().mode is Embedded
                ==> (r matches Ok(v) && v@.len() == self.spec_client().spec_runtime().spec_index().revisions(self.spec_resource()@).len()),
            self.spec_client().spec_config().mode is Remote ==> r is Err,
    {
        let id = ResourceId(self.resource_id);
        self.client.history(&id)
    }
}

} // verus!
